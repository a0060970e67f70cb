//! The declaration closure of one record family: every declaration, import
//! and stream reachable from the family's root through type references,
//! each group ordered by name.
use vstd::prelude::*;

use crate::error::SchemaError;
use crate::lookup::{first_match, lemma_first_match, lemma_first_match_at, lemma_first_match_none};
use crate::name::Name;
use crate::order::{keys_of, keys_sorted, sort_by_key};
use crate::reference::{
    TypeRefView, TypeReference, copy_reference, lemma_references_view, reference_view,
    references_view,
};
use crate::schema::{
    Declaration, EnumDeclaration, EnumVariant, ImportDeclaration, StreamDeclaration, TypeDeclaration,
    Visibility, copy_names, names_view,
};
use crate::true_schema::{Root, TrueSchema};
use crate::views::{
    DeclarationView, StreamView, TypeDeclView, copy_declaration, copy_stream, declaration_view,
    stream_view,
};

verus! {

// ---------------------------------------------------------------- sizes
/// The size of a reference tree; an application counts its head twice so
/// that splitting it into head and arguments makes progress.
pub open spec fn ref_size(r: TypeRefView) -> nat
    decreases r,
{
    match r {
        TypeRefView::Vector(inner) => 1 + ref_size(*inner),
        TypeRefView::Optional(inner) => 1 + ref_size(*inner),
        TypeRefView::ScopeOf(inner) => 1 + ref_size(*inner),
        TypeRefView::MapOf(key, value) => 1 + ref_size(*key) + ref_size(*value),
        TypeRefView::Application { arguments, .. } => 2 + refs_size(arguments),
        _ => 1,
    }
}

pub open spec fn refs_size(rs: Seq<TypeRefView>) -> nat
    decreases rs,
{
    if rs.len() == 0 {
        0
    } else {
        refs_size(rs.drop_last()) + ref_size(rs.last())
    }
}

/// One pending step of the walk: a reference to walk, a name to resolve,
/// or a stream to close over, each under a binder scope.
pub enum WalkTask {
    Reference(TypeReference, usize),
    Named(Name, usize),
    Stream(Name, usize),
}

pub open spec fn task_size(t: WalkTask) -> nat {
    match t {
        WalkTask::Reference(r, _) => ref_size(r@),
        _ => 1,
    }
}

pub open spec fn task_scope(t: WalkTask) -> usize {
    match t {
        WalkTask::Reference(_, s) => s,
        WalkTask::Named(_, s) => s,
        WalkTask::Stream(_, s) => s,
    }
}

pub open spec fn tasks_size(ts: Seq<WalkTask>) -> nat
    decreases ts.len(),
{
    if ts.len() == 0 {
        0
    } else {
        tasks_size(ts.drop_last()) + task_size(ts.last())
    }
}

// ---------------------------------------------------------------- the closure
/// The transitive declaration closure of one record family.
#[derive(Debug)]
pub struct FamilyClosure {
    root: Name,
    root_application: Option<TypeReference>,
    declarations: Vec<Declaration>,
    imports: Vec<ImportDeclaration>,
    streams: Vec<StreamDeclaration>,
}

impl FamilyClosure {
    pub closed spec fn spec_root(&self) -> Name {
        self.root
    }

    pub closed spec fn spec_root_application(&self) -> Option<TypeReference> {
        self.root_application
    }

    pub closed spec fn spec_declarations(&self) -> Seq<Declaration> {
        self.declarations@
    }

    pub closed spec fn spec_imports(&self) -> Seq<ImportDeclaration> {
        self.imports@
    }

    pub closed spec fn spec_streams(&self) -> Seq<StreamDeclaration> {
        self.streams@
    }

    pub fn root(&self) -> (r: &Name)
        ensures
            *r == self.spec_root(),
    {
        &self.root
    }

    pub fn root_application(&self) -> (r: Option<&TypeReference>)
        ensures
            match self.spec_root_application() {
                Some(a) => r == Some(&a),
                None => r is None,
            },
    {
        match &self.root_application {
            Some(reference) => Some(reference),
            None => None,
        }
    }

    pub fn declarations(&self) -> (r: &[Declaration])
        ensures
            r@ == self.spec_declarations(),
    {
        self.declarations.as_slice()
    }

    pub fn imports(&self) -> (r: &[ImportDeclaration])
        ensures
            r@ == self.spec_imports(),
    {
        self.imports.as_slice()
    }

    pub fn streams(&self) -> (r: &[StreamDeclaration])
        ensures
            r@ == self.spec_streams(),
    {
        self.streams.as_slice()
    }
}

// ---------------------------------------------------------------- membership
/// The names a closure declaration can carry: the namespace declarations'
/// and the two roots'.
pub open spec fn declaration_universe(s: TrueSchema) -> Set<Seq<char>> {
    s.spec_namespace().map_values(|d: Declaration| d.spec_name()@).to_set().insert(
        s.spec_input().spec_name()@,
    ).insert(s.spec_output().spec_name()@)
}

pub open spec fn import_universe(s: TrueSchema) -> Set<Seq<char>> {
    s.spec_imports().map_values(|i: ImportDeclaration| i.local_name@).to_set()
}

pub open spec fn stream_universe(s: TrueSchema) -> Set<Seq<char>> {
    s.spec_streams().map_values(|x: StreamDeclaration| x.name@).to_set()
}

/// The declaration a root enum enters the closure as.
pub open spec fn root_declaration_view(e: EnumDeclaration) -> DeclarationView {
    DeclarationView {
        visibility: Visibility::Public,
        name: e.name@,
        parameters: Seq::empty(),
        value: TypeDeclView::Enum(e@),
        impls: Seq::empty(),
    }
}

/// The declaration a name resolves to in the schema: a namespace
/// declaration first, else a root enum.
pub open spec fn resolved_declaration(s: TrueSchema, name: Seq<char>) -> Option<DeclarationView> {
    match s.spec_declaration_named(name) {
        Some(d) => Some(declaration_view(d)),
        None => match s.spec_root_enum_named(name) {
            Some(e) => Some(root_declaration_view(e)),
            None => None,
        },
    }
}

/// The predicate "is the import aliased `n`".
pub open spec fn import_spelled(n: Seq<char>) -> spec_fn(ImportDeclaration) -> bool {
    |i: ImportDeclaration| i.local_name@ == n
}

/// The predicate "is the stream spelled `n`".
pub open spec fn stream_spelled(n: Seq<char>) -> spec_fn(StreamDeclaration) -> bool {
    |x: StreamDeclaration| x.name@ == n
}

/// The first import with the alias.
pub open spec fn resolved_import(s: TrueSchema, name: Seq<char>) -> Option<(Seq<char>, TypeRefView)> {
    match first_match(s.spec_imports(), import_spelled(name)) {
        Some(k) => Some((s.spec_imports()[k].local_name@, s.spec_imports()[k].source@)),
        None => None,
    }
}

/// The first stream with the name.
pub open spec fn resolved_stream(s: TrueSchema, name: Seq<char>) -> Option<StreamView> {
    match first_match(s.spec_streams(), stream_spelled(name)) {
        Some(k) => Some(stream_view(s.spec_streams()[k])),
        None => None,
    }
}

pub open spec fn member_ok(s: TrueSchema, m: (String, Declaration)) -> bool {
    m.0@ == m.1.spec_name()@ && resolved_declaration(s, m.0@) == Some(declaration_view(m.1))
}

pub open spec fn import_ok(s: TrueSchema, m: (String, ImportDeclaration)) -> bool {
    resolved_import(s, m.0@) == Some((m.1.local_name@, m.1.source@)) && m.1.local_name@ == m.0@
}

pub open spec fn stream_ok(s: TrueSchema, m: (String, StreamDeclaration)) -> bool {
    resolved_stream(s, m.0@) == Some(stream_view(m.1)) && m.1.name@ == m.0@
}

spec fn reached_member(s: TrueSchema, family: Seq<char>) -> spec_fn((String, Declaration)) -> bool {
    |m: (String, Declaration)| reached(s, family, m.0@)
}

spec fn met_import(s: TrueSchema, family: Seq<char>) -> spec_fn((String, ImportDeclaration)) -> bool {
    |m: (String, ImportDeclaration)| met_as_type(s, family, m.0@)
}

spec fn met_stream(s: TrueSchema, family: Seq<char>) -> spec_fn((String, StreamDeclaration)) -> bool {
    |m: (String, StreamDeclaration)| met_as_stream(s, family, m.0@)
}

pub open spec fn member_pred(s: TrueSchema) -> spec_fn((String, Declaration)) -> bool {
    |m: (String, Declaration)| member_ok(s, m)
}

pub open spec fn import_pred(s: TrueSchema) -> spec_fn((String, ImportDeclaration)) -> bool {
    |m: (String, ImportDeclaration)| import_ok(s, m)
}

pub open spec fn stream_pred(s: TrueSchema) -> spec_fn((String, StreamDeclaration)) -> bool {
    |m: (String, StreamDeclaration)| stream_ok(s, m)
}

/// Where the walk starts: the family root's reference when the root is an
/// application, nothing for a declaration root.
pub open spec fn family_root_application(s: TrueSchema, family: Seq<char>) -> Option<TypeRefView> {
    if s.spec_declaration_named(family) is Some {
        None
    } else {
        match s.spec_root_named(family) {
            Some(Root::Application(a)) => Some(a.spec_reference()),
            _ => None,
        }
    }
}

/// Whether the family name names a root the walk can start from.
pub open spec fn family_root_exists(s: TrueSchema, family: Seq<char>) -> bool {
    s.spec_declaration_named(family) is Some || s.spec_root_named(family) is Some
}

proof fn lemma_distinct_within(s: Seq<Seq<char>>, u: Set<Seq<char>>)
    requires
        s.no_duplicates(),
        u.finite(),
        forall|k: int| 0 <= k < s.len() ==> u.contains(#[trigger] s[k]),
    ensures
        s.len() <= u.len(),
{
    s.unique_seq_to_set();
    assert(s.to_set().subset_of(u));
    vstd::set_lib::lemma_len_subset(s.to_set(), u);
}


// ---------------------------------------------------------------- what the walk reaches
/// Whether a reference mentions a name: as a plain name or as the head of
/// an application.
pub open spec fn mentions(r: TypeRefView, n: Seq<char>) -> bool
    decreases r, 1nat,
{
    match r {
        TypeRefView::Plain(m) => m == n,
        TypeRefView::Vector(inner) => mentions(*inner, n),
        TypeRefView::Optional(inner) => mentions(*inner, n),
        TypeRefView::ScopeOf(inner) => mentions(*inner, n),
        TypeRefView::MapOf(key, value) => mentions(*key, n) || mentions(*value, n),
        TypeRefView::Application { head, arguments } => crate::reference::head_spelling(head) == n
            || mentions_any(arguments, n),
        _ => false,
    }
}

pub open spec fn mentions_any(rs: Seq<TypeRefView>, n: Seq<char>) -> bool
    decreases rs, 0nat,
{
    rs.len() > 0 && (mentions_any(rs.drop_last(), n) || mentions(rs.last(), n))
}

proof fn lemma_mentions_any(rs: Seq<TypeRefView>, n: Seq<char>)
    ensures
        mentions_any(rs, n) <==> exists|i: int| 0 <= i < rs.len() && #[trigger] mentions(rs[i], n),
    decreases rs.len(),
{
    if rs.len() > 0 {
        lemma_mentions_any(rs.drop_last(), n);
        if mentions_any(rs.drop_last(), n) {
            let i = choose|i: int| 0 <= i < rs.drop_last().len() && #[trigger] mentions(rs.drop_last()[i], n);
            assert(rs[i] == rs.drop_last()[i]);
            assert(mentions(rs[i], n));
        }
        if mentions(rs.last(), n) {
            assert(mentions(rs[rs.len() - 1], n));
        }
        if exists|i: int| 0 <= i < rs.len() && #[trigger] mentions(rs[i], n) {
            let i = choose|i: int| 0 <= i < rs.len() && #[trigger] mentions(rs[i], n);
            if i < rs.len() - 1 {
                assert(rs.drop_last()[i] == rs[i]);
            }
        }
    }
}

/// Whether a declaration's body mentions a name: in a field's type, a
/// newtype's reference, or a variant's payload.
pub open spec fn declaration_mentions(d: Declaration, n: Seq<char>) -> bool {
    match d.spec_value() {
        TypeDeclaration::Struct(s) => exists|i: int|
            0 <= i < s.fields.spec_entries().len() && mentions(
                (#[trigger] s.fields.spec_entries()[i]).reference@,
                n,
            ),
        TypeDeclaration::Newtype(t) => mentions(t.reference@, n),
        TypeDeclaration::Enum(e) => exists|i: int| 0 <= i < e.variants@.len() && #[trigger] variant_mentions(e.variants@[i], n),
    }
}

pub open spec fn variant_mentions(v: EnumVariant, n: Seq<char>) -> bool {
    v.payload matches Some(p) && mentions(p@, n)
}

pub open spec fn variant_relates(v: EnumVariant, n: Seq<char>) -> bool {
    v.stream_relation matches Some(r) && r.spec_stream_name()@ == n
}

/// Whether one of a declaration's variants relates to the named stream.
pub open spec fn declaration_relates(d: Declaration, n: Seq<char>) -> bool {
    match d.spec_value() {
        TypeDeclaration::Enum(e) => exists|i: int| 0 <= i < e.variants@.len() && #[trigger] variant_relates(e.variants@[i], n),
        _ => false,
    }
}

/// Whether a stream's references mention a name.
pub open spec fn stream_mentions(x: StreamDeclaration, n: Seq<char>) -> bool {
    mentions(x.token@, n) || mentions(x.opened@, n) || mentions(x.event@, n) || mentions(x.close@, n)
}

/// Whether a closure holds a declaration or an import of the name.
pub open spec fn holds_name(c: FamilyClosure, n: Seq<char>) -> bool {
    (exists|k: int| 0 <= k < c.spec_declarations().len() && (#[trigger] c.spec_declarations()[k]).spec_name()@ == n)
        || (exists|k: int| 0 <= k < c.spec_imports().len() && (#[trigger] c.spec_imports()[k]).local_name@ == n)
}

/// Whether some declaration of a closure has a type parameter of the name.
pub open spec fn binds_somewhere(c: FamilyClosure, n: Seq<char>) -> bool {
    exists|k: int|
        0 <= k < c.spec_declarations().len() && names_view((#[trigger] c.spec_declarations()[k]).spec_parameters()).contains(n)
}

/// What a successful closure leaves out: nothing its members reach. Every
/// name a held declaration's body mentions is one of its own type
/// parameters or is held; every stream a variant relates to is held; every
/// name a held stream mentions is held or is a type parameter of the
/// declaration that brought the stream in; every name the root application
/// mentions is held; and a declaration root is itself held.
pub open spec fn closure_complete(c: FamilyClosure) -> bool {
    &&& forall|k: int, n: Seq<char>|
        0 <= k < c.spec_declarations().len() && #[trigger] declaration_mentions(c.spec_declarations()[k], n)
            ==> names_view(c.spec_declarations()[k].spec_parameters()).contains(n) || holds_name(c, n)
    &&& forall|k: int, n: Seq<char>|
        0 <= k < c.spec_declarations().len() && #[trigger] declaration_relates(c.spec_declarations()[k], n)
            ==> exists|j: int| 0 <= j < c.spec_streams().len() && (#[trigger] c.spec_streams()[j]).name@ == n
    &&& forall|k: int, n: Seq<char>|
        0 <= k < c.spec_streams().len() && #[trigger] stream_mentions(c.spec_streams()[k], n) ==> holds_name(c, n)
            || binds_somewhere(c, n)
    &&& c.spec_root_application() matches Some(a) ==> forall|n: Seq<char>| #[trigger] mentions(a@, n) ==> holds_name(
        c,
        n,
    )
    &&& c.spec_root_application() is None ==> exists|k: int|
        0 <= k < c.spec_declarations().len() && (#[trigger] c.spec_declarations()[k]).spec_name()@ == c.spec_root()@
}

pub open spec fn task_mentions(t: WalkTask, n: Seq<char>) -> bool {
    match t {
        WalkTask::Reference(r, _) => mentions(r@, n),
        WalkTask::Named(m, _) => m@ == n,
        WalkTask::Stream(_, _) => false,
    }
}

pub open spec fn task_streams(t: WalkTask, n: Seq<char>) -> bool {
    match t {
        WalkTask::Stream(m, _) => m@ == n,
        _ => false,
    }
}

pub open spec fn pending(st: Seq<WalkTask>, n: Seq<char>, s: int) -> bool {
    exists|j: int| 0 <= j < st.len() && task_scope(st[j]) == s && #[trigger] task_mentions(st[j], n)
}

pub open spec fn stream_pending(st: Seq<WalkTask>, n: Seq<char>) -> bool {
    exists|j: int| 0 <= j < st.len() && #[trigger] task_streams(st[j], n)
}

pub open spec fn prefix_of<T>(a: Seq<T>, b: Seq<T>) -> bool {
    a.len() <= b.len() && forall|j: int| 0 <= j < a.len() ==> #[trigger] b[j] == a[j]
}

proof fn lemma_keys_prefix<T>(a: Seq<(String, T)>, b: Seq<(String, T)>, n: Seq<char>)
    requires
        prefix_of(a, b),
        keys_of(a).contains(n),
    ensures
        keys_of(b).contains(n),
{
    let i = choose|i: int| 0 <= i < keys_of(a).len() && keys_of(a)[i] == n;
    assert(b[i] == a[i]);
    assert(keys_of(b)[i] == n);
}

// ---------------------------------------------------------------- the walk
struct ClosureWalk<'a> {
    schema: &'a TrueSchema,
    family: &'a str,
    members: Vec<(String, Declaration)>,
    imports: Vec<(String, ImportDeclaration)>,
    streams: Vec<(String, StreamDeclaration)>,
    scopes: Vec<Vec<Name>>,
    stack: Vec<WalkTask>,
    stream_scopes: Ghost<Seq<usize>>,
    origin: Ghost<Option<TypeRefView>>,
}

fn has_key<T>(entries: &Vec<(String, T)>, key: &str) -> (r: bool)
    ensures
        r == keys_of(entries@).contains(key@),
{
    let mut i: usize = 0;
    while i < entries.len()
        invariant
            i <= entries@.len(),
            forall|k: int| 0 <= k < i ==> #[trigger] entries@[k].0@ != key@,
        decreases entries@.len() - i,
    {
        if crate::text::str_equal(entries[i].0.as_str(), key) {
            proof {
                assert(keys_of(entries@)[i as int] == key@);
            }
            return true;
        }
        i = i + 1;
    }
    proof {
        if keys_of(entries@).contains(key@) {
            let k = choose|k: int| 0 <= k < keys_of(entries@).len() && keys_of(entries@)[k] == key@;
            assert(entries@[k].0@ == key@);
        }
    }
    false
}

fn scope_binds(scope: &Vec<Name>, name: &Name) -> (r: bool)
    ensures
        r == names_view(scope@).contains(name@),
{
    let mut i: usize = 0;
    while i < scope.len()
        invariant
            i <= scope@.len(),
            forall|k: int| 0 <= k < i ==> #[trigger] scope@[k]@ != name@,
        decreases scope@.len() - i,
    {
        if scope[i] == *name {
            proof {
                assert(names_view(scope@)[i as int] == name@);
            }
            return true;
        }
        i = i + 1;
    }
    proof {
        if names_view(scope@).contains(name@) {
            let k = choose|k: int| 0 <= k < names_view(scope@).len() && names_view(scope@)[k] == name@;
            assert(scope@[k]@ == name@);
        }
    }
    false
}

impl<'a> ClosureWalk<'a> {
    spec fn wf(&self) -> bool {
        &&& self.scopes@.len() > 0
        &&& forall|k: int| 0 <= k < self.stack@.len() ==> task_scope(#[trigger] self.stack@[k]) < self.scopes@.len()
        &&& keys_of(self.members@).no_duplicates()
        &&& keys_of(self.imports@).no_duplicates()
        &&& keys_of(self.streams@).no_duplicates()
        &&& forall|k: int| 0 <= k < self.members@.len() ==> member_ok(*self.schema, #[trigger] self.members@[k])
        &&& forall|k: int| 0 <= k < self.imports@.len() ==> import_ok(*self.schema, #[trigger] self.imports@[k])
        &&& forall|k: int| 0 <= k < self.streams@.len() ==> stream_ok(*self.schema, #[trigger] self.streams@[k])
    }

    spec fn budget(&self) -> int {
        (declaration_universe(*self.schema).len() - self.members@.len()) + (import_universe(
            *self.schema,
        ).len() - self.imports@.len()) + (stream_universe(*self.schema).len() - self.streams@.len())
    }



    /// Where a pending mention at a scope comes from: the root application
    /// at scope zero, the member that opened the scope, or a stream walked
    /// under it.
    spec fn source_mentions(&self, sc: int, n: Seq<char>) -> bool {
        ||| (sc == 0 && (self.origin@ matches Some(a) && mentions(a, n)))
        ||| (1 <= sc <= self.members@.len() && declaration_mentions(self.members@[sc - 1].1, n))
        ||| exists|k: int|
            0 <= k < self.streams@.len() && self.stream_scopes@[k] == sc && #[trigger] stream_mentions(
                self.streams@[k].1,
                n,
            )
    }

    spec fn source_relates(&self, sc: int, n: Seq<char>) -> bool {
        1 <= sc <= self.members@.len() && declaration_relates(self.members@[sc - 1].1, n)
    }

    spec fn task_sourced(&self, t: WalkTask) -> bool {
        &&& forall|n: Seq<char>| #[trigger] task_mentions(t, n) ==> self.source_mentions(task_scope(t) as int, n)
        &&& forall|n: Seq<char>| #[trigger] task_streams(t, n) ==> self.source_relates(task_scope(t) as int, n)
    }

    /// Every pending task comes from something the walk already holds.
    spec fn sourced(&self, st: Seq<WalkTask>) -> bool {
        forall|j: int| 0 <= j < st.len() ==> self.task_sourced(#[trigger] st[j])
    }

    /// A task a declaration's body gives: at the declaration's scope,
    /// mentioning only what the declaration mentions.
    spec fn from_body(t: WalkTask, sc: usize, d: Declaration) -> bool {
        &&& task_scope(t) == sc
        &&& forall|n: Seq<char>| #[trigger] task_mentions(t, n) ==> declaration_mentions(d, n)
        &&& forall|n: Seq<char>| #[trigger] task_streams(t, n) ==> declaration_relates(d, n)
    }

    /// The walk's origin is the family's root application, if any.
    spec fn rooted(&self) -> bool {
        self.origin@ == family_root_application(*self.schema, self.family@)
    }

    /// Every member the walk holds is reachable from the family's root, and
    /// every stream it holds is related to by the member whose scope it was
    /// walked under.
    spec fn reaching(&self) -> bool {
        &&& forall|k: int| 0 <= k < self.members@.len() ==> reached(*self.schema, self.family@, #[trigger] self.members@[k].0@)
        &&& forall|k: int| 0 <= k < self.imports@.len() ==> met_as_type(*self.schema, self.family@, #[trigger] self.imports@[k].0@)
        &&& forall|k: int|
            0 <= k < self.streams@.len() ==> 1 <= #[trigger] self.stream_scopes@[k] <= self.members@.len()
                && declaration_relates(self.members@[self.stream_scopes@[k] - 1].1, self.streams@[k].0@)
    }

    /// A name pending at a scope, and not bound there, is met by the
    /// family's walk, and is reachable where it names a declaration.
    proof fn lemma_pending_is_met(&self, sc: int, n: Seq<char>)
        requires
            self.wf(),
            self.shape(),
            self.reaching(),
            self.rooted(),
            0 <= sc < self.scopes@.len(),
            self.source_mentions(sc, n),
            !names_view(self.scopes@[sc]@).contains(n),
        ensures
            met_as_type(*self.schema, self.family@, n),
            resolved_declaration(*self.schema, n) is Some ==> reached(*self.schema, self.family@, n),
    {
        let s = *self.schema;
        let f = self.family@;
        if sc == 0 && (self.origin@ matches Some(a) && mentions(a, n)) {
            if resolved_declaration(s, n) is Some {
                assert(reached_within(s, f, n, 0));
            }
        } else {
            let d: Declaration;
            if 1 <= sc <= self.members@.len() && declaration_mentions(self.members@[sc - 1].1, n) {
                d = self.members@[sc - 1].1;
            } else {
                let k = choose|k: int|
                    0 <= k < self.streams@.len() && self.stream_scopes@[k] == sc && #[trigger] stream_mentions(
                        self.streams@[k].1,
                        n,
                    );
                assert(1 <= self.stream_scopes@[k] <= self.members@.len());
                d = self.members@[sc - 1].1;
                let x = self.streams@[k].1;
                assert(stream_ok(s, self.streams@[k]));
                assert(stream_resolves_to_itself(s, x) && declaration_relates(d, x.name@) && stream_mentions(x, n));
            }
            assert(member_ok(s, self.members@[sc - 1]));
            assert(names_view(self.scopes@[(sc - 1) + 1]@) == names_view(self.members@[sc - 1].1.spec_parameters()));
            assert(leads_to(s, d, n));
            assert(reached(s, f, self.members@[sc - 1].0@));
            assert(resolves_to_itself(s, d));
            if resolved_declaration(s, n) is Some {
                let depth = choose|depth: nat| #[trigger] reached_within(s, f, d.spec_name()@, depth);
                assert(reached_within(s, f, n, depth + 1));
            }
        }
    }

    spec fn covered(&self, st: Seq<WalkTask>, n: Seq<char>, s: int) -> bool {
        ||| names_view(self.scopes@[s]@).contains(n)
        ||| keys_of(self.members@).contains(n)
        ||| keys_of(self.imports@).contains(n)
        ||| pending(st, n, s)
    }

    spec fn stream_covered(&self, st: Seq<WalkTask>, n: Seq<char>) -> bool {
        keys_of(self.streams@).contains(n) || stream_pending(st, n)
    }

    spec fn shape(&self) -> bool {
        &&& self.scopes@.len() == self.members@.len() + 1
        &&& self.scopes@[0]@.len() == 0
        &&& forall|k: int| 0 <= k < self.members@.len() ==> names_view(#[trigger] self.scopes@[k + 1]@)
            == names_view(self.members@[k].1.spec_parameters())
        &&& self.stream_scopes@.len() == self.streams@.len()
        &&& forall|k: int| 0 <= k < self.streams@.len() ==> #[trigger] self.stream_scopes@[k] < self.scopes@.len()
    }

    spec fn member_covered(&self, st: Seq<WalkTask>, k: int) -> bool {
        &&& forall|n: Seq<char>| #[trigger] declaration_mentions(self.members@[k].1, n) ==> self.covered(st, n, k + 1)
        &&& forall|n: Seq<char>| #[trigger] declaration_relates(self.members@[k].1, n) ==> self.stream_covered(st, n)
    }

    spec fn stream_is_covered(&self, st: Seq<WalkTask>, k: int) -> bool {
        forall|n: Seq<char>| #[trigger] stream_mentions(self.streams@[k].1, n) ==> self.covered(st, n, self.stream_scopes@[k] as int)
    }

    spec fn origin_covered(&self, st: Seq<WalkTask>) -> bool {
        self.origin@ matches Some(a) ==> forall|n: Seq<char>| #[trigger] mentions(a, n) ==> self.covered(st, n, 0)
    }

    /// Everything the walk has reached so far is held, bound, or still pending.
    spec fn coverage(&self, st: Seq<WalkTask>) -> bool {
        &&& self.shape()
        &&& forall|k: int| 0 <= k < self.members@.len() ==> #[trigger] self.member_covered(st, k)
        &&& forall|k: int| 0 <= k < self.streams@.len() ==> #[trigger] self.stream_is_covered(st, k)
        &&& self.origin_covered(st)
    }

    /// The walk only grew since `old`: every sequence it holds extends the old one.
    spec fn grows_from(&self, old: &ClosureWalk) -> bool {
        &&& self.schema == old.schema
        &&& self.family == old.family
        &&& self.origin == old.origin
        &&& prefix_of(old.members@, self.members@)
        &&& prefix_of(old.imports@, self.imports@)
        &&& prefix_of(old.streams@, self.streams@)
        &&& prefix_of(old.scopes@, self.scopes@)
        &&& prefix_of(old.stream_scopes@, self.stream_scopes@)
        &&& prefix_of(old.stack@, self.stack@)
        &&& self.shape()
    }

    /// What the walk added since `old` is covered.
    spec fn fresh_covered(&self, old: &ClosureWalk) -> bool {
        &&& forall|k: int| old.members@.len() <= k < self.members@.len() ==> #[trigger] self.member_covered(self.stack@, k)
        &&& forall|k: int| old.streams@.len() <= k < self.streams@.len() ==> #[trigger] self.stream_is_covered(self.stack@, k)
    }

    /// A task is discharged once what it mentions is covered.
    spec fn discharged(&self, st: Seq<WalkTask>, t: WalkTask) -> bool {
        &&& forall|n: Seq<char>| #[trigger] task_mentions(t, n) ==> self.covered(st, n, task_scope(t) as int)
        &&& forall|n: Seq<char>| #[trigger] task_streams(t, n) ==> self.stream_covered(st, n)
    }

    /// Coverage carries over to a grown walk whose stack keeps a prefix of
    /// the old stack and has discharged the rest.
    proof fn lemma_coverage_carries_of(&self, st1: Seq<WalkTask>, w2: &ClosureWalk, st2: Seq<WalkTask>, p: int)
        requires
            self.shape(),
            w2.shape(),
            prefix_of(self.members@, w2.members@),
            prefix_of(self.imports@, w2.imports@),
            prefix_of(self.streams@, w2.streams@),
            prefix_of(self.scopes@, w2.scopes@),
            prefix_of(self.stream_scopes@, w2.stream_scopes@),
            self.origin == w2.origin,
            0 <= p <= st1.len(),
            p <= st2.len(),
            forall|j: int| 0 <= j < p ==> #[trigger] st2[j] == st1[j],
            forall|j: int| p <= j < st1.len() ==> w2.discharged(st2, #[trigger] st1[j]),
            self.coverage(st1),
        ensures
            forall|k: int| 0 <= k < self.members@.len() ==> #[trigger] w2.member_covered(st2, k),
            forall|k: int| 0 <= k < self.streams@.len() ==> #[trigger] w2.stream_is_covered(st2, k),
            w2.origin_covered(st2),
    {
        assert forall|n: Seq<char>, s: int| 0 <= s < self.scopes@.len() && self.covered(st1, n, s) implies w2.covered(st2, n, s) by {
            assert(w2.scopes@[s] == self.scopes@[s]);
            if keys_of(self.members@).contains(n) {
                lemma_keys_prefix(self.members@, w2.members@, n);
            } else if keys_of(self.imports@).contains(n) {
                lemma_keys_prefix(self.imports@, w2.imports@, n);
            } else if !names_view(self.scopes@[s]@).contains(n) {
                let j = choose|j: int| 0 <= j < st1.len() && task_scope(st1[j]) == s && #[trigger] task_mentions(st1[j], n);
                if j < p {
                    assert(st2[j] == st1[j]);
                    assert(task_mentions(st2[j], n));
                } else {
                    assert(w2.discharged(st2, st1[j]));
                }
            }
        }
        assert forall|n: Seq<char>| self.stream_covered(st1, n) implies w2.stream_covered(st2, n) by {
            if keys_of(self.streams@).contains(n) {
                lemma_keys_prefix(self.streams@, w2.streams@, n);
            } else {
                let j = choose|j: int| 0 <= j < st1.len() && #[trigger] task_streams(st1[j], n);
                if j < p {
                    assert(st2[j] == st1[j]);
                    assert(task_streams(st2[j], n));
                } else {
                    assert(w2.discharged(st2, st1[j]));
                }
            }
        }
        assert forall|k: int| 0 <= k < self.members@.len() implies #[trigger] w2.member_covered(st2, k) by {
            assert(self.member_covered(st1, k));
            assert(w2.members@[k] == self.members@[k]);
        }
        assert forall|k: int| 0 <= k < self.streams@.len() implies #[trigger] w2.stream_is_covered(st2, k) by {
            assert(self.stream_is_covered(st1, k));
            assert(w2.streams@[k] == self.streams@[k]);
            assert(w2.stream_scopes@[k] == self.stream_scopes@[k]);
        }
    }


    proof fn lemma_grows_reflexive(&self)
        requires
            self.shape(),
        ensures
            self.grows_from(self),
            self.fresh_covered(self),
    {
    }

    proof fn lemma_budget_nonnegative(&self)
        requires
            self.wf(),
        ensures
            self.members@.len() <= declaration_universe(*self.schema).len(),
            self.imports@.len() <= import_universe(*self.schema).len(),
            self.streams@.len() <= stream_universe(*self.schema).len(),
    {
        let s = *self.schema;
        let names = s.spec_namespace().map_values(|d: Declaration| d.spec_name()@);
        vstd::seq_lib::seq_to_set_is_finite(names);
        vstd::seq_lib::seq_to_set_is_finite(s.spec_imports().map_values(|i: ImportDeclaration| i.local_name@));
        vstd::seq_lib::seq_to_set_is_finite(s.spec_streams().map_values(|x: StreamDeclaration| x.name@));
        assert forall|k: int| 0 <= k < keys_of(self.members@).len() implies declaration_universe(
            s,
        ).contains(#[trigger] keys_of(self.members@)[k]) by {
            let key = keys_of(self.members@)[k];
            assert(member_ok(s, self.members@[k]));
            if s.spec_declaration_named(key) is Some {
                lemma_first_match(s.spec_namespace(), crate::true_schema::declaration_spelled(key));
                let j = first_match(s.spec_namespace(), crate::true_schema::declaration_spelled(key)).unwrap();
                assert(names[j] == key);
            }
        }
        lemma_distinct_within(keys_of(self.members@), declaration_universe(s));
        assert forall|k: int| 0 <= k < keys_of(self.imports@).len() implies import_universe(s).contains(
            #[trigger] keys_of(self.imports@)[k],
        ) by {
            let key = keys_of(self.imports@)[k];
            assert(import_ok(s, self.imports@[k]));
            lemma_first_match(s.spec_imports(), import_spelled(key));
            let j = first_match(s.spec_imports(), import_spelled(key)).unwrap();
            assert(s.spec_imports().map_values(|i: ImportDeclaration| i.local_name@)[j] == key);
        }
        lemma_distinct_within(keys_of(self.imports@), import_universe(s));
        assert forall|k: int| 0 <= k < keys_of(self.streams@).len() implies stream_universe(s).contains(
            #[trigger] keys_of(self.streams@)[k],
        ) by {
            let key = keys_of(self.streams@)[k];
            assert(stream_ok(s, self.streams@[k]));
            lemma_first_match(s.spec_streams(), stream_spelled(key));
            let j = first_match(s.spec_streams(), stream_spelled(key)).unwrap();
            assert(s.spec_streams().map_values(|x: StreamDeclaration| x.name@)[j] == key);
        }
        lemma_distinct_within(keys_of(self.streams@), stream_universe(s));
    }
}


/// A declaration the schema resolves its own name to.
pub open spec fn resolves_to_itself(s: TrueSchema, d: Declaration) -> bool {
    resolved_declaration(s, d.spec_name()@) == Some(declaration_view(d))
}

/// A stream the schema resolves its own name to.
pub open spec fn stream_resolves_to_itself(s: TrueSchema, x: StreamDeclaration) -> bool {
    resolved_stream(s, x.name@) == Some(stream_view(x))
}

/// Whether a declaration leads on to a name: the name is not one of the
/// declaration's own type parameters, and the declaration's body mentions
/// it, or a stream of the schema that one of its variants relates to
/// mentions it.
pub open spec fn leads_to(s: TrueSchema, d: Declaration, n: Seq<char>) -> bool {
    &&& !names_view(d.spec_parameters()).contains(n)
    &&& (declaration_mentions(d, n) || exists|x: StreamDeclaration|
        stream_resolves_to_itself(s, x) && declaration_relates(d, x.name@) && #[trigger] stream_mentions(x, n))
}

/// The declarations a family reaches within `depth` steps: the family's
/// own root, or, for an application root, each declared name its reference
/// mentions; then each declared name a reached declaration leads to.
pub open spec fn reached_within(s: TrueSchema, family: Seq<char>, n: Seq<char>, depth: nat) -> bool
    decreases depth,
{
    if depth == 0 {
        match family_root_application(s, family) {
            Some(a) => mentions(a, n) && resolved_declaration(s, n) is Some,
            None => n == family && family_root_exists(s, family),
        }
    } else {
        ||| reached_within(s, family, n, (depth - 1) as nat)
        ||| (resolved_declaration(s, n) is Some && exists|d: Declaration|
            resolves_to_itself(s, d) && reached_within(s, family, d.spec_name()@, (depth - 1) as nat)
                && #[trigger] leads_to(s, d, n))
    }
}

/// The declarations reachable from a family's root.
pub open spec fn reached(s: TrueSchema, family: Seq<char>, n: Seq<char>) -> bool {
    exists|depth: nat| #[trigger] reached_within(s, family, n, depth)
}

/// Whether the family's walk meets a name as a type: a reachable
/// declaration leads to it, or the family's root application mentions it.
pub open spec fn met_as_type(s: TrueSchema, family: Seq<char>, n: Seq<char>) -> bool {
    ||| exists|d: Declaration|
        resolves_to_itself(s, d) && reached(s, family, d.spec_name()@) && #[trigger] leads_to(s, d, n)
    ||| (family_root_application(s, family) matches Some(a) && mentions(a, n))
}

/// Whether the family's walk meets a name as a stream: a variant of a
/// reachable declaration relates to it.
pub open spec fn met_as_stream(s: TrueSchema, family: Seq<char>, n: Seq<char>) -> bool {
    exists|d: Declaration|
        resolves_to_itself(s, d) && reached(s, family, d.spec_name()@) && #[trigger] declaration_relates(d, n)
}

/// A name the family's walk meets and cannot resolve: met as a type, with
/// no declaration, root enum or import of that name; or met as a stream,
/// with no stream of that name.
pub open spec fn missing_name(s: TrueSchema, family: Seq<char>, n: Seq<char>) -> bool {
    ||| (met_as_type(s, family, n) && resolved_declaration(s, n) is None && resolved_import(s, n) is None)
    ||| (met_as_stream(s, family, n) && resolved_stream(s, n) is None)
}

pub open spec fn reports_missing(e: SchemaError, s: TrueSchema, family: Seq<char>) -> bool {
    e matches SchemaError::FamilyReferenceNotFound { family: f, name } && f@ == family
        && missing_name(s, family, name@)
}

proof fn lemma_tasks_push(ts: Seq<WalkTask>, t: WalkTask)
    ensures
        tasks_size(ts.push(t)) == tasks_size(ts) + task_size(t),
{
    assert(ts.push(t).drop_last() =~= ts);
}

impl<'a> ClosureWalk<'a> {
    fn push_task(&mut self, task: WalkTask)
        requires
            old(self).wf(),
            task_scope(task) < old(self).scopes@.len(),
        ensures
            final(self).wf(),
            final(self).schema == old(self).schema,
            final(self).family == old(self).family,
            final(self).members == old(self).members,
            final(self).imports == old(self).imports,
            final(self).streams == old(self).streams,
            final(self).scopes == old(self).scopes,
            final(self).stream_scopes == old(self).stream_scopes,
            final(self).origin == old(self).origin,
            final(self).stack@ == old(self).stack@.push(task),
            tasks_size(final(self).stack@) == tasks_size(old(self).stack@) + task_size(task),
            prefix_of(old(self).stack@, final(self).stack@),
            forall|n: Seq<char>, s: int| #[trigger] pending(old(self).stack@, n, s) ==> pending(final(self).stack@, n, s),
            forall|n: Seq<char>| #[trigger] stream_pending(old(self).stack@, n) ==> stream_pending(final(self).stack@, n),
            forall|n: Seq<char>| #[trigger] task_mentions(task, n) ==> pending(final(self).stack@, n, task_scope(task) as int),
            forall|n: Seq<char>| #[trigger] task_streams(task, n) ==> stream_pending(final(self).stack@, n),
    {
        proof {
            lemma_tasks_push(self.stack@, task);
        }
        let ghost before = self.stack@;
        self.stack.push(task);
        proof {
            let after = self.stack@;
            assert forall|n: Seq<char>, s: int| #[trigger] pending(before, n, s) implies pending(after, n, s) by {
                let j = choose|j: int| 0 <= j < before.len() && task_scope(before[j]) == s && #[trigger] task_mentions(before[j], n);
                assert(after[j] == before[j]);
            }
            assert forall|n: Seq<char>| #[trigger] stream_pending(before, n) implies stream_pending(after, n) by {
                let j = choose|j: int| 0 <= j < before.len() && #[trigger] task_streams(before[j], n);
                assert(after[j] == before[j]);
            }
            assert forall|n: Seq<char>| #[trigger] task_mentions(task, n) implies pending(after, n, task_scope(task) as int) by {
                assert(after[before.len() as int] == task);
            }
            assert forall|n: Seq<char>| #[trigger] task_streams(task, n) implies stream_pending(after, n) by {
                assert(after[before.len() as int] == task);
            }
        }
    }

    /// Admit a declaration into the closure and schedule the walk of its
    /// body under its own type parameters: fields in order, payloads and
    /// stream relations variant by variant.
    fn take_in(&mut self, key: String, declaration: Declaration)
        requires
            old(self).wf(),
            old(self).shape(),
            !keys_of(old(self).members@).contains(key@),
            member_ok(*old(self).schema, (key, declaration)),
            old(self).sourced(old(self).stack@),
            old(self).reaching(),
            reached(*old(self).schema, old(self).family@, key@),
        ensures
            final(self).sourced(final(self).stack@),
            final(self).reaching(),
            final(self).wf(),
            final(self).schema == old(self).schema,
            final(self).family == old(self).family,
            final(self).members@ == old(self).members@.push((key, declaration)),
            final(self).imports == old(self).imports,
            final(self).streams == old(self).streams,
            final(self).grows_from(&*old(self)),
            final(self).fresh_covered(&*old(self)),
    {
        let scope = self.scopes.len();
        let ghost w0 = *self;
        let parameters = copy_names(declaration.parameters());
        self.scopes.push(parameters);
        let ghost scopes_after = self.scopes;
        proof {
            assert(self.scopes@ == w0.scopes@.push(parameters));
        }
        match declaration.value() {
            TypeDeclaration::Struct(body) => {
                let fields = body.fields.entries();
                let mut i = fields.len();
                while i > 0
                    invariant
                        i <= fields@.len(),
                        self.wf(),
                        scope < self.scopes@.len(),
                        self.schema == old(self).schema,
                        self.family == old(self).family,
                        self.members == old(self).members,
                        self.imports == old(self).imports,
                        self.streams == old(self).streams,
                        self.stream_scopes == old(self).stream_scopes,
                        self.origin == old(self).origin,
                        self.scopes == scopes_after,
                        prefix_of(w0.stack@, self.stack@),
                        fields@ == body.fields.spec_entries(),
                        declaration.spec_value() == TypeDeclaration::Struct(*body),
                        forall|j: int| w0.stack@.len() <= j < self.stack@.len() ==> Self::from_body(#[trigger] self.stack@[j], scope, declaration),
                        forall|m: int, n: Seq<char>|
                            i <= m < fields@.len() && #[trigger] mentions(fields@[m].reference@, n) ==> pending(
                                self.stack@,
                                n,
                                scope as int,
                            ),
                    decreases i,
                {
                    i = i - 1;
                    let ghost before = self.stack@;
                    let task = WalkTask::Reference(copy_reference(&fields[i].reference), scope);
                    self.push_task(task);
                    proof {
                        assert forall|m: int, n: Seq<char>|
                            i <= m < fields@.len() && #[trigger] mentions(fields@[m].reference@, n) implies pending(
                                self.stack@,
                                n,
                                scope as int,
                            ) by {
                            if m == i {
                                assert(task_mentions(task, n));
                            } else {
                                assert(pending(before, n, scope as int));
                            }
                        }
                        assert forall|j: int| 0 <= j < w0.stack@.len() implies #[trigger] self.stack@[j] == w0.stack@[j] by {
                            assert(before[j] == w0.stack@[j]);
                        }
                        assert forall|n: Seq<char>| #[trigger] task_mentions(task, n) implies declaration_mentions(declaration, n) by {
                            assert(mentions(body.fields.spec_entries()[i as int].reference@, n));
                        }
                        assert forall|j: int| w0.stack@.len() <= j < self.stack@.len() implies Self::from_body(#[trigger] self.stack@[j], scope, declaration) by {
                            if j < before.len() {
                                assert(self.stack@[j] == before[j]);
                            } else {
                                assert(self.stack@[j] == task);
                            }
                        }
                    }
                }
            },
            TypeDeclaration::Newtype(body) => {
                let task = WalkTask::Reference(copy_reference(&body.reference), scope);
                self.push_task(task);
                proof {
                    assert forall|n: Seq<char>| mentions(body.reference@, n) implies pending(self.stack@, n, scope as int) by {
                        assert(task_mentions(task, n));
                    }
                    assert(Self::from_body(self.stack@[self.stack@.len() - 1], scope, declaration));
                }
            },
            TypeDeclaration::Enum(body) => {
                let mut i = body.variants.len();
                while i > 0
                    invariant
                        i <= body.variants@.len(),
                        self.wf(),
                        scope < self.scopes@.len(),
                        self.schema == old(self).schema,
                        self.family == old(self).family,
                        self.members == old(self).members,
                        self.imports == old(self).imports,
                        self.streams == old(self).streams,
                        self.stream_scopes == old(self).stream_scopes,
                        self.origin == old(self).origin,
                        self.scopes == scopes_after,
                        prefix_of(w0.stack@, self.stack@),
                        declaration.spec_value() == TypeDeclaration::Enum(*body),
                        forall|j: int| w0.stack@.len() <= j < self.stack@.len() ==> Self::from_body(#[trigger] self.stack@[j], scope, declaration),
                        forall|m: int, n: Seq<char>|
                            i <= m < body.variants@.len() && #[trigger] variant_mentions(body.variants@[m], n) ==> pending(self.stack@, n, scope as int),
                        forall|m: int, n: Seq<char>|
                            i <= m < body.variants@.len() && #[trigger] variant_relates(body.variants@[m], n) ==> stream_pending(self.stack@, n),
                    decreases i,
                {
                    i = i - 1;
                    let variant = &body.variants[i];
                    let ghost before = self.stack@;
                    if let Some(relation) = &variant.stream_relation {
                        let task = WalkTask::Stream(relation.stream_name().clone(), scope);
                        self.push_task(task);
                        proof {
                            assert(task_streams(task, relation.spec_stream_name()@));
                            assert forall|n: Seq<char>| #[trigger] task_streams(task, n) implies declaration_relates(declaration, n) by {
                                assert(*variant == body.variants@[i as int]);
                                assert(n == relation.spec_stream_name()@);
                                assert(variant_relates(body.variants@[i as int], n));
                                assert(declaration.spec_value() == TypeDeclaration::Enum(*body));
                                let e = declaration.spec_value()->Enum_0;
                                assert(e == *body);
                                assert(0 <= i < e.variants@.len());
                                assert(variant_relates(e.variants@[i as int], n));
                            }
                            assert forall|j: int| w0.stack@.len() <= j < self.stack@.len() implies Self::from_body(#[trigger] self.stack@[j], scope, declaration) by {
                                if j < before.len() {
                                    assert(self.stack@[j] == before[j]);
                                } else {
                                    assert(self.stack@[j] == task);
                                }
                            }
                        }
                    }
                    let ghost middle = self.stack@;
                    if let Some(payload) = &variant.payload {
                        let ghost mid = self.stack@;
                        let task = WalkTask::Reference(copy_reference(payload), scope);
                        self.push_task(task);
                        proof {
                            assert forall|n: Seq<char>| mentions(payload@, n) implies pending(self.stack@, n, scope as int) by {
                                assert(task_mentions(task, n));
                            }
                            assert forall|n: Seq<char>| #[trigger] task_mentions(task, n) implies declaration_mentions(declaration, n) by {
                                assert(*variant == body.variants@[i as int]);
                                assert(mentions(payload@, n));
                                assert(variant_mentions(body.variants@[i as int], n));
                                assert(declaration.spec_value() == TypeDeclaration::Enum(*body));
                                let e = declaration.spec_value()->Enum_0;
                                assert(e == *body);
                                assert(0 <= i < e.variants@.len());
                                assert(variant_mentions(e.variants@[i as int], n));
                            }
                            assert forall|j: int| w0.stack@.len() <= j < self.stack@.len() implies Self::from_body(#[trigger] self.stack@[j], scope, declaration) by {
                                if j < mid.len() {
                                    assert(self.stack@[j] == mid[j]);
                                } else {
                                    assert(self.stack@[j] == task);
                                }
                            }
                        }
                    }
                    proof {
                        assert forall|m: int, n: Seq<char>|
                            i <= m < body.variants@.len() && #[trigger] variant_mentions(body.variants@[m], n) implies pending(self.stack@, n, scope as int) by {
                            if m != i {
                                assert(pending(before, n, scope as int));
                                assert(pending(middle, n, scope as int));
                            }
                        }
                        assert forall|m: int, n: Seq<char>|
                            i <= m < body.variants@.len() && #[trigger] variant_relates(body.variants@[m], n) implies stream_pending(self.stack@, n) by {
                            if m != i {
                                assert(stream_pending(before, n));
                                assert(stream_pending(middle, n));
                            } else {
                                assert(stream_pending(middle, n));
                            }
                        }
                        assert forall|j: int| 0 <= j < w0.stack@.len() implies #[trigger] self.stack@[j] == w0.stack@[j] by {
                            assert(before[j] == w0.stack@[j]);
                            assert(middle[j] == before[j]);
                        }
                    }
                }
            },
        }
        let ghost before = self.members@;
        self.members.push((key, declaration));
        proof {
            assert(keys_of(self.members@) =~= keys_of(before).push(key@));
            assert forall|k: int| 0 <= k < self.members@.len() implies member_ok(
                *self.schema,
                #[trigger] self.members@[k],
            ) by {
                if k < before.len() {
                    assert(self.members@[k] == before[k]);
                }
            }
            assert forall|x: int, y: int|
                0 <= x < keys_of(self.members@).len() && 0 <= y < keys_of(self.members@).len() && x
                    != y implies keys_of(self.members@)[x] != keys_of(self.members@)[y] by {
                if x < before.len() && y < before.len() {
                    assert(keys_of(self.members@)[x] == keys_of(before)[x]);
                    assert(keys_of(self.members@)[y] == keys_of(before)[y]);
                } else if x == before.len() {
                    assert(keys_of(self.members@)[y] == keys_of(before)[y]);
                    assert(keys_of(before).contains(keys_of(before)[y]));
                } else {
                    assert(keys_of(self.members@)[x] == keys_of(before)[x]);
                    assert(keys_of(before).contains(keys_of(before)[x]));
                }
            }
            let k = before.len() as int;
            assert forall|m: int| 0 <= m < self.members@.len() implies names_view(#[trigger] self.scopes@[m + 1]@)
                == names_view(self.members@[m].1.spec_parameters()) by {
                if m < k {
                    assert(self.scopes@[m + 1] == w0.scopes@[m + 1]);
                    assert(self.members@[m] == before[m]);
                }
            }
            assert(self.scopes@[0] == w0.scopes@[0]);
            assert forall|m: int| 0 <= m < self.members@.len() implies reached(*self.schema, self.family@, #[trigger] self.members@[m].0@) by {
                if m < k {
                    assert(self.members@[m] == before[m]);
                }
            }
            assert forall|m: int| 0 <= m < self.streams@.len() implies 1 <= #[trigger] self.stream_scopes@[m] <= self.members@.len()
                && declaration_relates(self.members@[self.stream_scopes@[m] - 1].1, self.streams@[m].0@) by {
                assert(self.members@[self.stream_scopes@[m] - 1] == before[self.stream_scopes@[m] - 1]);
            }
            lemma_sourced_carries(w0, *self, w0.stack@);
            assert forall|j: int| 0 <= j < self.stack@.len() implies self.task_sourced(#[trigger] self.stack@[j]) by {
                if j < w0.stack@.len() {
                    assert(self.stack@[j] == w0.stack@[j]);
                } else {
                    let t = self.stack@[j];
                    assert(Self::from_body(t, scope, declaration));
                    assert(self.members@[k] == (key, declaration));
                    assert forall|n: Seq<char>| #[trigger] task_mentions(t, n) implies self.source_mentions(task_scope(t) as int, n) by {
                        assert(declaration_mentions(declaration, n));
                    }
                    assert forall|n: Seq<char>| #[trigger] task_streams(t, n) implies self.source_relates(task_scope(t) as int, n) by {
                        assert(declaration_relates(declaration, n));
                    }
                }
            }
            assert(self.member_covered(self.stack@, k)) by {
                assert forall|n: Seq<char>| #[trigger] declaration_mentions(self.members@[k].1, n) implies self.covered(
                    self.stack@,
                    n,
                    k + 1,
                ) by {
                    match declaration.spec_value() {
                        TypeDeclaration::Struct(body) => {
                            let i = choose|i: int|
                                0 <= i < body.fields.spec_entries().len() && mentions(
                                    (#[trigger] body.fields.spec_entries()[i]).reference@,
                                    n,
                                );
                            assert(mentions(body.fields.spec_entries()[i].reference@, n));
                        },
                        TypeDeclaration::Newtype(body) => {},
                        TypeDeclaration::Enum(body) => {
                            let i = choose|i: int| 0 <= i < body.variants@.len() && #[trigger] variant_mentions(body.variants@[i], n);
                            assert(variant_mentions(body.variants@[i], n));
                        },
                    }
                }
                assert forall|n: Seq<char>| #[trigger] declaration_relates(self.members@[k].1, n) implies self.stream_covered(
                    self.stack@,
                    n,
                ) by {
                    match declaration.spec_value() {
                        TypeDeclaration::Enum(body) => {
                            let i = choose|i: int| 0 <= i < body.variants@.len() && #[trigger] variant_relates(body.variants@[i], n);
                            assert(variant_relates(body.variants@[i], n));
                        },
                        _ => {},
                    }
                }
            }
        }
    }

    /// Resolve a name met in the walk: a binder in scope or a member
    /// already held resolves at once; a namespace declaration or root enum
    /// is admitted; an import is held; anything else is missing.
    fn visit_name(&mut self, name: Name, scope: usize) -> (r: Result<(), SchemaError>)
        requires
            old(self).wf(),
            old(self).shape(),
            scope < old(self).scopes@.len(),
            old(self).sourced(old(self).stack@),
            old(self).rooted(),
            old(self).reaching(),
            old(self).source_mentions(scope as int, name@),
        ensures
            r is Ok ==> final(self).sourced(final(self).stack@),
            r is Ok ==> final(self).reaching(),
            final(self).schema == old(self).schema,
            final(self).family == old(self).family,
            r is Ok ==> final(self).wf() && (final(self).budget() < old(self).budget() || (
            final(self).budget() == old(self).budget() && final(self).stack@ == old(self).stack@)),
            r is Ok ==> final(self).grows_from(&*old(self)) && final(self).fresh_covered(&*old(self))
                && final(self).covered(final(self).stack@, name@, scope as int),
            r is Err ==> reports_missing(r->Err_0, *old(self).schema, old(self).family@),
    {
        proof {
            self.lemma_budget_nonnegative();
            self.lemma_grows_reflexive();
        }
        if scope_binds(&self.scopes[scope], &name) {
            return Ok(());
        }
        if has_key(&self.members, name.as_str()) || has_key(&self.imports, name.as_str()) {
            return Ok(());
        }
        let schema = self.schema;
        proof {
            self.lemma_pending_is_met(scope as int, name@);
        }
        if let Some(declaration) = schema.namespace_declaration_named(name.as_str()) {
            let copy = copy_declaration(declaration);
            proof {
                assert(declaration.spec_name()@ == name@) by {
                    lemma_first_match(schema.spec_namespace(), crate::true_schema::declaration_spelled(name@));
                }
            }
            let key = name.as_str().to_owned();
            self.take_in(key, copy);
            proof {
                self.lemma_budget_nonnegative();
                assert(keys_of(self.members@)[self.members@.len() - 1] == name@);
            }
            return Ok(());
        }
        if let Some(root) = schema.root_enum_named(name.as_str()) {
            let declaration = Declaration::public(TypeDeclaration::Enum(root.clone()));
            proof {
                assert(crate::schema::names_view(declaration.spec_parameters()) =~= Seq::<Seq<char>>::empty());
                declaration.spec_impls().lemma_view();
                assert(declaration.spec_impls()@ =~= Seq::<crate::impls::ImplRefView>::empty());
                assert(declaration_view(declaration) =~= root_declaration_view(*root));
            }
            let key = name.as_str().to_owned();
            self.take_in(key, declaration);
            proof {
                assert(keys_of(self.members@)[self.members@.len() - 1] == name@);
            }
            return Ok(());
        }
        let imports = schema.imports();
        let mut i: usize = 0;
        while i < imports.len()
            invariant
                i <= imports@.len(),
                imports@ == schema.spec_imports(),
                *self == *old(self),
                self.shape(),
                self.sourced(self.stack@),
                self.rooted(),
                self.reaching(),
                met_as_type(*schema, self.family@, name@),
                self.source_mentions(scope as int, name@),
                !names_view(self.scopes@[scope as int]@).contains(name@),
                resolved_declaration(*schema, name@) is None,
                schema == self.schema,
                self.wf(),
                scope < self.scopes@.len(),
                !keys_of(self.members@).contains(name@),
                !keys_of(self.imports@).contains(name@),
                forall|k: int| 0 <= k < i ==> !#[trigger] import_spelled(name@)(imports@[k]),
            decreases imports@.len() - i,
        {
            if imports[i].local_name == name {
                proof {
                    lemma_first_match_at(imports@, import_spelled(name@), i as int);
                }
                let import = ImportDeclaration {
                    local_name: imports[i].local_name.clone(),
                    source: copy_reference(&imports[i].source),
                };
                let ghost before = self.imports@;
                let key = name.as_str().to_owned();
                self.imports.push((key, import));
                proof {
                    assert(keys_of(self.imports@) =~= keys_of(before).push(name@));
                    assert forall|k: int| 0 <= k < self.imports@.len() implies import_ok(
                        *self.schema,
                        #[trigger] self.imports@[k],
                    ) by {
                        if k < before.len() {
                            assert(self.imports@[k] == before[k]);
                        }
                    }
                    assert forall|x: int, y: int|
                        0 <= x < keys_of(self.imports@).len() && 0 <= y < keys_of(self.imports@).len()
                            && x != y implies keys_of(self.imports@)[x] != keys_of(self.imports@)[y] by {
                        if x < before.len() && y < before.len() {
                            assert(keys_of(self.imports@)[x] == keys_of(before)[x]);
                            assert(keys_of(self.imports@)[y] == keys_of(before)[y]);
                        } else if x == before.len() {
                            assert(keys_of(self.imports@)[y] == keys_of(before)[y]);
                            assert(keys_of(before).contains(keys_of(before)[y]));
                        } else {
                            assert(keys_of(self.imports@)[x] == keys_of(before)[x]);
                            assert(keys_of(before).contains(keys_of(before)[x]));
                        }
                    }
                    self.lemma_budget_nonnegative();
                    assert(keys_of(self.imports@)[self.imports@.len() - 1] == name@);
                    assert forall|j: int| 0 <= j < before.len() implies #[trigger] self.imports@[j] == before[j] by {}
                    assert(keys_of(self.imports@).contains(name@));
                    lemma_sourced_carries(*old(self), *self, self.stack@);
                    assert forall|k: int| 0 <= k < self.imports@.len() implies met_as_type(*self.schema, self.family@, #[trigger] self.imports@[k].0@) by {
                        if k < before.len() {
                            assert(self.imports@[k] == before[k]);
                        }
                    }
                }
                return Ok(());
            }
            i = i + 1;
        }
        proof {
            lemma_first_match_none(imports@, import_spelled(name@));
            let s = *schema;
            assert(met_as_type(s, self.family@, name@));
        }
        Err(
            SchemaError::FamilyReferenceNotFound {
                family: self.family.to_owned(),
                name: name.as_str().to_owned(),
            },
        )
    }

    /// Close over a stream named by a variant's stream relation: the
    /// stream is held and its four references walked.
    fn visit_stream(&mut self, name: Name, scope: usize) -> (r: Result<(), SchemaError>)
        requires
            old(self).wf(),
            old(self).shape(),
            scope < old(self).scopes@.len(),
            old(self).sourced(old(self).stack@),
            old(self).rooted(),
            old(self).reaching(),
            old(self).source_relates(scope as int, name@),
        ensures
            r is Ok ==> final(self).sourced(final(self).stack@),
            r is Ok ==> final(self).reaching(),
            final(self).schema == old(self).schema,
            final(self).family == old(self).family,
            r is Ok ==> final(self).wf() && (final(self).budget() < old(self).budget() || (
            final(self).budget() == old(self).budget() && final(self).stack@ == old(self).stack@)),
            r is Ok ==> final(self).grows_from(&*old(self)) && final(self).fresh_covered(&*old(self))
                && final(self).stream_covered(final(self).stack@, name@),
            r is Err ==> reports_missing(r->Err_0, *old(self).schema, old(self).family@),
    {
        proof {
            self.lemma_budget_nonnegative();
            self.lemma_grows_reflexive();
        }
        if has_key(&self.streams, name.as_str()) {
            return Ok(());
        }
        let schema = self.schema;
        let streams = schema.streams();
        let mut i: usize = 0;
        while i < streams.len()
            invariant
                i <= streams@.len(),
                streams@ == schema.spec_streams(),
                *self == *old(self),
                self.shape(),
                self.sourced(self.stack@),
                self.rooted(),
                self.reaching(),
                self.source_relates(scope as int, name@),
                schema == self.schema,
                self.wf(),
                scope < self.scopes@.len(),
                !keys_of(self.streams@).contains(name@),
                forall|k: int| 0 <= k < i ==> !#[trigger] stream_spelled(name@)(streams@[k]),
            decreases streams@.len() - i,
        {
            if streams[i].name == name {
                proof {
                    lemma_first_match_at(streams@, stream_spelled(name@), i as int);
                }
                let stream = copy_stream(&streams[i]);
                let close = WalkTask::Reference(copy_reference(&stream.close), scope);
                let event = WalkTask::Reference(copy_reference(&stream.event), scope);
                let opened = WalkTask::Reference(copy_reference(&stream.opened), scope);
                let token = WalkTask::Reference(copy_reference(&stream.token), scope);
                let ghost s0 = self.stack@;
                self.push_task(close);
                let ghost s1 = self.stack@;
                self.push_task(event);
                let ghost s2 = self.stack@;
                self.push_task(opened);
                let ghost s3 = self.stack@;
                self.push_task(token);
                proof {
                    assert forall|n: Seq<char>| stream_mentions(stream, n) implies pending(self.stack@, n, scope as int) by {
                        if mentions(stream.close@, n) {
                            assert(task_mentions(close, n));
                            assert(pending(s2, n, scope as int));
                            assert(pending(s3, n, scope as int));
                        } else if mentions(stream.event@, n) {
                            assert(task_mentions(event, n));
                            assert(pending(s3, n, scope as int));
                        } else if mentions(stream.opened@, n) {
                            assert(task_mentions(opened, n));
                        } else {
                            assert(task_mentions(token, n));
                        }
                    }
                    assert forall|j: int| 0 <= j < s0.len() implies #[trigger] self.stack@[j] == s0[j] by {
                        assert(s1[j] == s0[j]);
                        assert(s2[j] == s1[j]);
                        assert(s3[j] == s2[j]);
                    }
                }
                let ghost before = self.streams@;
                let ghost scopes_before = self.stream_scopes@;
                let key = name.as_str().to_owned();
                self.streams.push((key, stream));
                self.stream_scopes = Ghost(self.stream_scopes@.push(scope));
                proof {
                    assert(keys_of(self.streams@)[self.streams@.len() - 1] == name@);
                    assert forall|j: int| 0 <= j < before.len() implies #[trigger] self.streams@[j] == before[j] by {}
                    assert forall|j: int| 0 <= j < scopes_before.len() implies #[trigger] self.stream_scopes@[j] == scopes_before[j] by {}
                    assert forall|k: int| 0 <= k < self.streams@.len() implies #[trigger] self.stream_scopes@[k] < self.scopes@.len() by {
                        if k < before.len() {
                            assert(self.stream_scopes@[k] == scopes_before[k]);
                        }
                    }
                    assert(self.stream_is_covered(self.stack@, before.len() as int));
                    assert(keys_of(self.streams@) =~= keys_of(before).push(name@));
                    assert forall|k: int| 0 <= k < self.streams@.len() implies stream_ok(
                        *self.schema,
                        #[trigger] self.streams@[k],
                    ) by {
                        if k < before.len() {
                            assert(self.streams@[k] == before[k]);
                        }
                    }
                    assert forall|x: int, y: int|
                        0 <= x < keys_of(self.streams@).len() && 0 <= y < keys_of(self.streams@).len()
                            && x != y implies keys_of(self.streams@)[x] != keys_of(self.streams@)[y] by {
                        if x < before.len() && y < before.len() {
                            assert(keys_of(self.streams@)[x] == keys_of(before)[x]);
                            assert(keys_of(self.streams@)[y] == keys_of(before)[y]);
                        } else if x == before.len() {
                            assert(keys_of(self.streams@)[y] == keys_of(before)[y]);
                            assert(keys_of(before).contains(keys_of(before)[y]));
                        } else {
                            assert(keys_of(self.streams@)[x] == keys_of(before)[x]);
                            assert(keys_of(before).contains(keys_of(before)[x]));
                        }
                    }
                    self.lemma_budget_nonnegative();
                    let k = before.len() as int;
                    assert(self.streams@[k].1 == stream);
                    assert(self.stream_scopes@[k] == scope);
                    lemma_sourced_carries(*old(self), *self, s0);
                    assert forall|m: int| 0 <= m < self.members@.len() implies reached(*self.schema, self.family@, #[trigger] self.members@[m].0@) by {
                        assert(old(self).members@[m] == self.members@[m]);
                    }
                    assert forall|m: int| 0 <= m < self.streams@.len() implies 1 <= #[trigger] self.stream_scopes@[m] <= self.members@.len()
                        && declaration_relates(self.members@[self.stream_scopes@[m] - 1].1, self.streams@[m].0@) by {
                        if m < k {
                            assert(self.stream_scopes@[m] == scopes_before[m]);
                            assert(self.streams@[m] == before[m]);
                        }
                    }
                    assert forall|j: int| 0 <= j < self.stack@.len() implies self.task_sourced(#[trigger] self.stack@[j]) by {
                        if j < s0.len() {
                            assert(self.stack@[j] == s0[j]);
                        } else {
                            let t = self.stack@[j];
                            assert(t == close || t == event || t == opened || t == token);
                            assert forall|n: Seq<char>| #[trigger] task_mentions(t, n) implies self.source_mentions(scope as int, n) by {
                                assert(stream_mentions(self.streams@[k].1, n));
                            }
                        }
                    }
                }
                return Ok(());
            }
            i = i + 1;
        }
        proof {
            lemma_first_match_none(streams@, stream_spelled(name@));
            let s = *schema;
            let sc = scope as int;
            let d = self.members@[sc - 1].1;
            assert(member_ok(s, self.members@[sc - 1]));
            assert(resolves_to_itself(s, d) && declaration_relates(d, name@));
            assert(reached(s, self.family@, self.members@[sc - 1].0@));
            assert(met_as_stream(s, self.family@, name@));
        }
        Err(
            SchemaError::FamilyReferenceNotFound {
                family: self.family.to_owned(),
                name: name.as_str().to_owned(),
            },
        )
    }

    /// One step of the walk.
    fn step(&mut self, task: WalkTask) -> (r: Result<(), SchemaError>)
        requires
            old(self).wf(),
            task_scope(task) < old(self).scopes@.len(),
            old(self).coverage(old(self).stack@.push(task)),
            old(self).sourced(old(self).stack@.push(task)),
            old(self).rooted(),
            old(self).reaching(),
        ensures
            r is Ok ==> final(self).sourced(final(self).stack@),
            r is Ok ==> final(self).reaching(),
            final(self).schema == old(self).schema,
            final(self).family == old(self).family,
            r is Ok ==> final(self).wf() && (final(self).budget() < old(self).budget() || (
            final(self).budget() == old(self).budget() && tasks_size(final(self).stack@) < tasks_size(
                old(self).stack@,
            ) + task_size(task))),
            r is Ok ==> final(self).coverage(final(self).stack@),
            r is Ok ==> prefix_of(old(self).members@, final(self).members@) && final(self).origin == old(self).origin,
            r is Err ==> reports_missing(r->Err_0, *old(self).schema, old(self).family@),
    {
        let ghost w0 = *self;
        let ghost t0 = task;
        proof {
            self.lemma_grows_reflexive();
            let st = self.stack@.push(task);
            assert(st[st.len() - 1] == task);
            assert(self.task_sourced(task));
            assert forall|j: int| 0 <= j < self.stack@.len() implies self.task_sourced(#[trigger] self.stack@[j]) by {
                assert(st[j] == self.stack@[j]);
            }
        }
        let r = match task {
            WalkTask::Named(name, scope) => {
                proof {
                    assert(task_mentions(t0, name@));
                }
                self.visit_name(name, scope)
            },
            WalkTask::Stream(name, scope) => {
                proof {
                    assert(task_streams(t0, name@));
                }
                self.visit_stream(name, scope)
            },
            WalkTask::Reference(reference, scope) => {
                let ghost rv = reference@;
                match reference {
                    TypeReference::Plain(name) => {
                        proof {
                            assert(task_mentions(t0, name@));
                        }
                        self.visit_name(name, scope)
                    },
                    TypeReference::Vector(inner) => {
                        self.push_task(WalkTask::Reference(*inner, scope));
                        proof {
                            assert(derived(self.stack@[self.stack@.len() - 1], t0));
                            lemma_derived_sourced(w0, *self, t0);
                            assert forall|n: Seq<char>| #[trigger] task_mentions(t0, n) implies self.covered(self.stack@, n, scope as int) by {
                                assert(task_mentions(self.stack@[self.stack@.len() - 1], n));
                            }
                        }
                        Ok(())
                    },
                    TypeReference::Optional(inner) => {
                        self.push_task(WalkTask::Reference(*inner, scope));
                        proof {
                            assert(derived(self.stack@[self.stack@.len() - 1], t0));
                            lemma_derived_sourced(w0, *self, t0);
                            assert forall|n: Seq<char>| #[trigger] task_mentions(t0, n) implies self.covered(self.stack@, n, scope as int) by {
                                assert(task_mentions(self.stack@[self.stack@.len() - 1], n));
                            }
                        }
                        Ok(())
                    },
                    TypeReference::ScopeOf(inner) => {
                        self.push_task(WalkTask::Reference(*inner, scope));
                        proof {
                            assert(derived(self.stack@[self.stack@.len() - 1], t0));
                            lemma_derived_sourced(w0, *self, t0);
                            assert forall|n: Seq<char>| #[trigger] task_mentions(t0, n) implies self.covered(self.stack@, n, scope as int) by {
                                assert(task_mentions(self.stack@[self.stack@.len() - 1], n));
                            }
                        }
                        Ok(())
                    },
                    TypeReference::MapOf(key, value) => {
                        self.push_task(WalkTask::Reference(*value, scope));
                        let ghost s1 = self.stack@;
                        self.push_task(WalkTask::Reference(*key, scope));
                        proof {
                            assert(derived(self.stack@[self.stack@.len() - 1], t0));
                            assert(derived(self.stack@[self.stack@.len() - 2], t0));
                            assert forall|j: int| w0.stack@.len() <= j < self.stack@.len() implies #[trigger] derived(self.stack@[j], t0) by {}
                            lemma_derived_sourced(w0, *self, t0);
                            assert forall|n: Seq<char>| #[trigger] task_mentions(t0, n) implies self.covered(self.stack@, n, scope as int) by {
                                if task_mentions(s1[s1.len() - 1], n) {
                                    assert(pending(s1, n, scope as int));
                                } else {
                                    assert(task_mentions(self.stack@[self.stack@.len() - 1], n));
                                }
                            }
                            assert forall|j: int| 0 <= j < w0.stack@.len() implies #[trigger] self.stack@[j] == w0.stack@[j] by {
                                assert(s1[j] == w0.stack@[j]);
                            }
                        }
                        Ok(())
                    },
                    TypeReference::Application { head, arguments } => {
                        let mut arguments = arguments;
                        let ghost orig = arguments@;
                        let ghost all = references_view(arguments@);
                        let ghost start = tasks_size(self.stack@);
                        proof {
                            lemma_references_view(arguments@);
                        }
                        while arguments.len() > 0
                            invariant
                                self.wf(),
                                scope < self.scopes@.len(),
                                self.schema == old(self).schema,
                                self.family == old(self).family,
                                self.members == old(self).members,
                                self.imports == old(self).imports,
                                self.streams == old(self).streams,
                                self.scopes == old(self).scopes,
                                self.stream_scopes == old(self).stream_scopes,
                                self.origin == old(self).origin,
                                tasks_size(self.stack@) + refs_size(references_view(arguments@)) == start
                                    + refs_size(all),
                                arguments@.len() <= orig.len(),
                                arguments@ == orig.take(arguments@.len() as int),
                                prefix_of(w0.stack@, self.stack@),
                                rv == (TypeRefView::Application { head: head@, arguments: all }),
                                all.len() == orig.len(),
                                task_scope(t0) == scope,
                                forall|n: Seq<char>| #[trigger] mentions(rv, n) ==> task_mentions(t0, n),
                                forall|i: int| 0 <= i < orig.len() ==> #[trigger] all[i] == orig[i]@,
                                forall|j: int| w0.stack@.len() <= j < self.stack@.len() ==> #[trigger] derived(self.stack@[j], t0),
                                forall|i: int, n: Seq<char>|
                                    arguments@.len() <= i < orig.len() && #[trigger] mentions(orig[i]@, n) ==> pending(
                                        self.stack@,
                                        n,
                                        scope as int,
                                    ),
                            decreases arguments@.len(),
                        {
                            let ghost before = arguments@;
                            let ghost s1 = self.stack@;
                            let argument = arguments.pop().unwrap();
                            proof {
                                assert(arguments@ =~= before.drop_last());
                                assert(references_view(before) == references_view(before.drop_last()).push(
                                    reference_view(before.last()),
                                ));
                                assert(references_view(before).drop_last() =~= references_view(arguments@));
                                assert(arguments@ =~= orig.take(arguments@.len() as int));
                                assert(argument == orig[arguments@.len() as int]);
                            }
                            self.push_task(WalkTask::Reference(argument, scope));
                            proof {
                                assert forall|i: int, n: Seq<char>|
                                    arguments@.len() <= i < orig.len() && #[trigger] mentions(orig[i]@, n) implies pending(
                                        self.stack@,
                                        n,
                                        scope as int,
                                    ) by {
                                    if i == arguments@.len() {
                                        assert(task_mentions(self.stack@[self.stack@.len() - 1], n));
                                    } else {
                                        assert(pending(s1, n, scope as int));
                                    }
                                }
                                assert forall|n: Seq<char>| #[trigger] mentions(argument@, n) implies mentions(rv, n) by {
                                    lemma_mentions_any(all, n);
                                    assert(all[arguments@.len() as int] == argument@);
                                }
                                assert forall|j: int| w0.stack@.len() <= j < self.stack@.len() implies #[trigger] derived(self.stack@[j], t0) by {
                                    if j < s1.len() {
                                        assert(self.stack@[j] == s1[j]);
                                    } else {
                                        let t = self.stack@[j];
                                        assert(t == WalkTask::Reference(argument, scope));
                                        assert forall|n: Seq<char>| #[trigger] task_mentions(t, n) implies task_mentions(t0, n) by {
                                            assert(mentions(argument@, n));
                                            assert(mentions(rv, n));
                                        }
                                    }
                                }
                                assert forall|j: int| 0 <= j < w0.stack@.len() implies #[trigger] self.stack@[j] == w0.stack@[j] by {
                                    assert(s1[j] == w0.stack@[j]);
                                }
                            }
                        }
                        proof {
                            assert(references_view(arguments@) =~= Seq::<TypeRefView>::empty());
                        }
                        let ghost s1 = self.stack@;
                        self.push_task(WalkTask::Named(head.name().clone(), scope));
                        proof {
                            assert forall|j: int| w0.stack@.len() <= j < self.stack@.len() implies #[trigger] derived(self.stack@[j], t0) by {
                                if j < s1.len() {
                                    assert(self.stack@[j] == s1[j]);
                                }
                            }
                            lemma_derived_sourced(w0, *self, t0);
                            assert forall|n: Seq<char>| #[trigger] task_mentions(t0, n) implies self.covered(self.stack@, n, scope as int) by {
                                if crate::reference::head_spelling(head@) == n {
                                    assert(task_mentions(self.stack@[self.stack@.len() - 1], n));
                                } else {
                                    lemma_mentions_any(all, n);
                                    let i = choose|i: int| 0 <= i < all.len() && #[trigger] mentions(all[i], n);
                                    assert(all[i] == orig[i]@);
                                    assert(mentions(orig[i]@, n));
                                    assert(pending(s1, n, scope as int));
                                }
                            }
                            assert forall|j: int| 0 <= j < w0.stack@.len() implies #[trigger] self.stack@[j] == w0.stack@[j] by {
                                assert(s1[j] == w0.stack@[j]);
                            }
                        }
                        Ok(())
                    },
                    _ => {
                        proof {
                            lemma_derived_sourced(w0, *self, t0);
                        }
                        Ok(())
                    },
                }
            },
        };
        proof {
            if r is Ok {
                if self.members@ == w0.members@ && self.imports@ == w0.imports@ && self.streams@ == w0.streams@ && self.stream_scopes@ == w0.stream_scopes@ {
                    lemma_reaching_carries(w0, *self);
                }
                let w1 = *self;
                let st1 = w0.stack@.push(t0);
                assert forall|j: int| 0 <= j < w0.stack@.len() implies #[trigger] self.stack@[j] == st1[j] by {
                    assert(self.stack@[j] == w0.stack@[j]);
                }
                assert(st1[w0.stack@.len() as int] == t0);
                assert(w1.discharged(self.stack@, t0));
                lemma_coverage_carries(w0, st1, w1, self.stack@, w0.stack@.len() as int);
                assert(w1.fresh_covered(&w0));
                assert forall|k: int| 0 <= k < w1.members@.len() implies #[trigger] w1.member_covered(self.stack@, k) by {
                    if k < w0.members@.len() {
                    } else {
                        assert(w1.member_covered(w1.stack@, k));
                    }
                }
                assert forall|k: int| 0 <= k < w1.streams@.len() implies #[trigger] w1.stream_is_covered(self.stack@, k) by {
                    if k < w0.streams@.len() {
                    } else {
                        assert(w1.stream_is_covered(w1.stack@, k));
                    }
                }
            }
        }
        r
    }

    /// Walk every pending task.
    fn run(&mut self) -> (r: Result<(), SchemaError>)
        requires
            old(self).wf(),
            old(self).coverage(old(self).stack@),
            old(self).sourced(old(self).stack@),
            old(self).rooted(),
            old(self).reaching(),
        ensures
            final(self).schema == old(self).schema,
            final(self).family == old(self).family,
            r is Ok ==> final(self).wf(),
            r is Ok ==> final(self).coverage(final(self).stack@) && final(self).stack@.len() == 0,
            r is Ok ==> prefix_of(old(self).members@, final(self).members@) && final(self).origin == old(self).origin,
            r is Ok ==> final(self).reaching(),
            r is Err ==> reports_missing(r->Err_0, *old(self).schema, old(self).family@),
    {
        while self.stack.len() > 0
            invariant
                self.wf(),
                self.coverage(self.stack@),
                self.sourced(self.stack@),
                self.rooted(),
                self.reaching(),
                prefix_of(old(self).members@, self.members@),
                self.origin == old(self).origin,
                self.schema == old(self).schema,
                self.family == old(self).family,
            decreases self.budget(), tasks_size(self.stack@),
        {
            proof {
                self.lemma_budget_nonnegative();
            }
            let ghost before = self.stack@;
            let ghost w_before = *self;
            let task = self.stack.pop().unwrap();
            proof {
                assert(self.stack@ =~= before.drop_last());
                assert(before.last() == task);
                assert(self.stack@.push(task) =~= before);
                lemma_coverage_ignores_stack(w_before, *self, before);
                lemma_sourced_carries(w_before, *self, before);
                lemma_reaching_carries(w_before, *self);
                assert(task_scope(task) < self.scopes@.len());
            }
            let ghost members_before = self.members@;
            let outcome = self.step(task);
            if outcome.is_err() {
                return outcome;
            }
            proof {
                assert forall|j: int| 0 <= j < old(self).members@.len() implies #[trigger] self.members@[j] == old(self).members@[j] by {
                    assert(members_before[j] == old(self).members@[j]);
                }
            }
            proof {
                self.lemma_budget_nonnegative();
            }
        }
        Ok(())
    }
}


/// Coverage carries over to a grown walk whose stack keeps a prefix of the
/// old stack and has discharged the rest.
proof fn lemma_coverage_carries<'a>(w1: ClosureWalk<'a>, st1: Seq<WalkTask>, w2: ClosureWalk<'a>, st2: Seq<WalkTask>, p: int)
    requires
        w1.shape(),
        w2.shape(),
        prefix_of(w1.members@, w2.members@),
        prefix_of(w1.imports@, w2.imports@),
        prefix_of(w1.streams@, w2.streams@),
        prefix_of(w1.scopes@, w2.scopes@),
        prefix_of(w1.stream_scopes@, w2.stream_scopes@),
        w1.origin == w2.origin,
        0 <= p <= st1.len(),
        p <= st2.len(),
        forall|j: int| 0 <= j < p ==> #[trigger] st2[j] == st1[j],
        forall|j: int| p <= j < st1.len() ==> w2.discharged(st2, #[trigger] st1[j]),
        w1.coverage(st1),
    ensures
        forall|k: int| 0 <= k < w1.members@.len() ==> #[trigger] w2.member_covered(st2, k),
        forall|k: int| 0 <= k < w1.streams@.len() ==> #[trigger] w2.stream_is_covered(st2, k),
        w2.origin_covered(st2),
{
    w1.lemma_coverage_carries_of(st1, &w2, st2, p);
}

/// A task that one step derives from another: at its scope, mentioning
/// and relating only what the other does.
spec fn derived(t: WalkTask, t0: WalkTask) -> bool {
    &&& task_scope(t) == task_scope(t0)
    &&& forall|n: Seq<char>| #[trigger] task_mentions(t, n) ==> task_mentions(t0, n)
    &&& forall|n: Seq<char>| #[trigger] task_streams(t, n) ==> task_streams(t0, n)
}

/// Tasks derived from a sourced task are sourced.
proof fn lemma_derived_sourced<'a>(w0: ClosureWalk<'a>, w1: ClosureWalk<'a>, t0: WalkTask)
    requires
        w0.sourced(w0.stack@.push(t0)),
        w1.members == w0.members,
        w1.streams == w0.streams,
        w1.stream_scopes == w0.stream_scopes,
        w1.origin == w0.origin,
        prefix_of(w0.stack@, w1.stack@),
        forall|j: int| w0.stack@.len() <= j < w1.stack@.len() ==> #[trigger] derived(w1.stack@[j], t0),
    ensures
        w1.sourced(w1.stack@),
{
    let st = w0.stack@.push(t0);
    assert(st[st.len() - 1] == t0);
    assert(w0.task_sourced(t0));
    assert forall|j: int| 0 <= j < w1.stack@.len() implies w1.task_sourced(#[trigger] w1.stack@[j]) by {
        if j < w0.stack@.len() {
            assert(st[j] == w0.stack@[j]);
            assert(w0.task_sourced(st[j]));
        } else {
            assert(derived(w1.stack@[j], t0));
        }
    }
}

/// What a walk reaches stays reached as the walk grows.
proof fn lemma_reaching_carries<'a>(w1: ClosureWalk<'a>, w2: ClosureWalk<'a>)
    requires
        w1.schema == w2.schema,
        w1.family == w2.family,
        w1.members@ == w2.members@,
        w1.imports@ == w2.imports@,
        w1.streams@ == w2.streams@,
        w1.stream_scopes@ == w2.stream_scopes@,
        w1.reaching(),
    ensures
        w2.reaching(),
{
}

/// What a held walk sources stays sourced as the walk grows.
proof fn lemma_sourced_carries<'a>(w1: ClosureWalk<'a>, w2: ClosureWalk<'a>, st: Seq<WalkTask>)
    requires
        prefix_of(w1.members@, w2.members@),
        prefix_of(w1.streams@, w2.streams@),
        prefix_of(w1.stream_scopes@, w2.stream_scopes@),
        w1.stream_scopes@.len() == w1.streams@.len(),
        w1.origin == w2.origin,
        w1.sourced(st),
    ensures
        w2.sourced(st),
{
    assert forall|j: int| 0 <= j < st.len() implies w2.task_sourced(#[trigger] st[j]) by {
        let t = st[j];
        assert(w1.task_sourced(t));
        let sc = task_scope(t) as int;
        assert forall|n: Seq<char>| #[trigger] task_mentions(t, n) implies w2.source_mentions(sc, n) by {
            assert(w1.source_mentions(sc, n));
            if 1 <= sc <= w1.members@.len() && declaration_mentions(w1.members@[sc - 1].1, n) {
                assert(w2.members@[sc - 1] == w1.members@[sc - 1]);
            } else if !(sc == 0 && (w1.origin@ matches Some(a) && mentions(a, n))) {
                let k = choose|k: int|
                    0 <= k < w1.streams@.len() && w1.stream_scopes@[k] == sc && #[trigger] stream_mentions(
                        w1.streams@[k].1,
                        n,
                    );
                assert(w2.streams@[k] == w1.streams@[k]);
                assert(w2.stream_scopes@[k] == w1.stream_scopes@[k]);
            }
        }
        assert forall|n: Seq<char>| #[trigger] task_streams(t, n) implies w2.source_relates(sc, n) by {
            assert(w1.source_relates(sc, n));
            assert(w2.members@[sc - 1] == w1.members@[sc - 1]);
        }
    }
}

/// Coverage reads the walk's holdings and scopes, never its own stack.
proof fn lemma_coverage_ignores_stack<'a>(w1: ClosureWalk<'a>, w2: ClosureWalk<'a>, st: Seq<WalkTask>)
    requires
        w1.members == w2.members,
        w1.imports == w2.imports,
        w1.streams == w2.streams,
        w1.scopes == w2.scopes,
        w1.stream_scopes == w2.stream_scopes,
        w1.origin == w2.origin,
        w1.coverage(st),
    ensures
        w2.coverage(st),
{
    assert forall|n: Seq<char>, s: int| w1.covered(st, n, s) == w2.covered(st, n, s) by {}
    assert forall|n: Seq<char>| w1.stream_covered(st, n) == w2.stream_covered(st, n) by {}
    assert forall|k: int| 0 <= k < w2.members@.len() implies #[trigger] w2.member_covered(st, k) by {
        assert(w1.member_covered(st, k));
    }
    assert forall|k: int| 0 <= k < w2.streams@.len() implies #[trigger] w2.stream_is_covered(st, k) by {
        assert(w1.stream_is_covered(st, k));
    }
}

/// Every element of one sequence occurs in another with the same multiset.
proof fn lemma_occurs_in<T>(r: Seq<T>, v: Seq<T>, i: int) -> (j: int)
    requires
        r.to_multiset() == v.to_multiset(),
        0 <= i < r.len(),
    ensures
        0 <= j < v.len() && v[j] == r[i],
{
    vstd::seq_lib::to_multiset_contains(r, r[i]);
    vstd::seq_lib::to_multiset_contains(v, r[i]);
    assert(r.contains(r[i]));
    choose|j: int| 0 <= j < v.len() && v[j] == r[i]
}

/// A finished walk's holdings, ordered by name, make a complete closure.
proof fn lemma_walk_complete<'a>(
    w: ClosureWalk<'a>,
    sm: Seq<(String, Declaration)>,
    si: Seq<(String, ImportDeclaration)>,
    ss: Seq<(String, StreamDeclaration)>,
    c: FamilyClosure,
)
    requires
        w.wf(),
        w.coverage(w.stack@),
        w.stack@.len() == 0,
        sm.to_multiset() == w.members@.to_multiset(),
        si.to_multiset() == w.imports@.to_multiset(),
        ss.to_multiset() == w.streams@.to_multiset(),
        c.spec_declarations() == sm.map_values(|e: (String, Declaration)| e.1),
        c.spec_imports() == si.map_values(|e: (String, ImportDeclaration)| e.1),
        c.spec_streams() == ss.map_values(|e: (String, StreamDeclaration)| e.1),
        c.spec_root_application() matches Some(a) ==> w.origin@ == Some(a@),
        c.spec_root_application() is None ==> keys_of(w.members@).contains(c.spec_root()@),
    ensures
        closure_complete(c),
{
    let s = *w.schema;
    let st = w.stack@;
    assert forall|n: Seq<char>| keys_of(w.members@).contains(n) || keys_of(w.imports@).contains(n) implies holds_name(c, n) by {
        if keys_of(w.members@).contains(n) {
            let m = choose|m: int| 0 <= m < keys_of(w.members@).len() && keys_of(w.members@)[m] == n;
            assert(member_ok(s, w.members@[m]));
            let k = lemma_occurs_in(w.members@, sm, m);
            assert(c.spec_declarations()[k] == sm[k].1);
        } else {
            let m = choose|m: int| 0 <= m < keys_of(w.imports@).len() && keys_of(w.imports@)[m] == n;
            assert(import_ok(s, w.imports@[m]));
            let k = lemma_occurs_in(w.imports@, si, m);
            assert(c.spec_imports()[k] == si[k].1);
        }
    }
    assert forall|n: Seq<char>, sc: int| 0 <= sc < w.scopes@.len() && #[trigger] w.covered(st, n, sc) implies holds_name(c, n)
        || (sc > 0 && names_view(w.members@[sc - 1].1.spec_parameters()).contains(n)) by {
        if names_view(w.scopes@[sc]@).contains(n) {
            if sc == 0 {
                assert(names_view(w.scopes@[0]@).len() == 0);
            } else {
                assert(names_view(w.scopes@[(sc - 1) + 1]@) == names_view(w.members@[sc - 1].1.spec_parameters()));
            }
        }
    }
    assert forall|k: int, n: Seq<char>|
        0 <= k < c.spec_declarations().len() && #[trigger] declaration_mentions(c.spec_declarations()[k], n)
            implies names_view(c.spec_declarations()[k].spec_parameters()).contains(n) || holds_name(c, n) by {
        let m = lemma_occurs_in(sm, w.members@, k);
        assert(c.spec_declarations()[k] == sm[k].1);
        assert(w.member_covered(st, m));
        assert(w.covered(st, n, m + 1));
    }
    assert forall|k: int, n: Seq<char>|
        0 <= k < c.spec_declarations().len() && #[trigger] declaration_relates(c.spec_declarations()[k], n)
            implies exists|j: int| 0 <= j < c.spec_streams().len() && (#[trigger] c.spec_streams()[j]).name@ == n by {
        let m = lemma_occurs_in(sm, w.members@, k);
        assert(c.spec_declarations()[k] == sm[k].1);
        assert(w.member_covered(st, m));
        assert(w.stream_covered(st, n));
        let q = choose|q: int| 0 <= q < keys_of(w.streams@).len() && keys_of(w.streams@)[q] == n;
        assert(stream_ok(s, w.streams@[q]));
        let j = lemma_occurs_in(w.streams@, ss, q);
        assert(c.spec_streams()[j] == ss[j].1);
    }
    assert forall|k: int, n: Seq<char>|
        0 <= k < c.spec_streams().len() && #[trigger] stream_mentions(c.spec_streams()[k], n) implies holds_name(c, n)
            || binds_somewhere(c, n) by {
        let m = lemma_occurs_in(ss, w.streams@, k);
        assert(c.spec_streams()[k] == ss[k].1);
        assert(w.stream_is_covered(st, m));
        let sc = w.stream_scopes@[m] as int;
        assert(w.covered(st, n, sc));
        if !holds_name(c, n) {
            let q = (sc - 1) as int;
            let j = lemma_occurs_in(w.members@, sm, q);
            assert(c.spec_declarations()[j] == sm[j].1);
        }
    }
    if let Some(a) = c.spec_root_application() {
        assert forall|n: Seq<char>| #[trigger] mentions(a@, n) implies holds_name(c, n) by {
            assert(w.covered(st, n, 0));
        }
    } else {
        let m = choose|m: int| 0 <= m < keys_of(w.members@).len() && keys_of(w.members@)[m] == c.spec_root()@;
        assert(member_ok(s, w.members@[m]));
        let k = lemma_occurs_in(w.members@, sm, m);
        assert(c.spec_declarations()[k] == sm[k].1);
    }
}

/// A property every element of a sequence has, every permutation's
/// elements have.
/// Reordering entries whose keys are distinct leaves them distinct.
proof fn lemma_keys_stay_distinct<T>(r: Seq<(String, T)>, v: Seq<(String, T)>)
    requires
        r.to_multiset() == v.to_multiset(),
        keys_of(v).no_duplicates(),
    ensures
        keys_of(r).no_duplicates(),
{
    crate::identifier::lemma_map_keeps_multiset(r, v, |e: (String, T)| e.0@);
    keys_of(v).lemma_multiset_has_no_duplicates();
    keys_of(r).lemma_multiset_has_no_duplicates_conv();
}

proof fn lemma_permutation_preserves<T>(r: Seq<T>, v: Seq<T>, p: spec_fn(T) -> bool)
    requires
        r.to_multiset() == v.to_multiset(),
        forall|k: int| 0 <= k < v.len() ==> #[trigger] p(v[k]),
    ensures
        forall|k: int| 0 <= k < r.len() ==> #[trigger] p(r[k]),
{
    assert forall|k: int| 0 <= k < r.len() implies #[trigger] p(r[k]) by {
        vstd::seq_lib::to_multiset_contains(r, r[k]);
        vstd::seq_lib::to_multiset_contains(v, r[k]);
        assert(r.contains(r[k]));
        let j = choose|j: int| 0 <= j < v.len() && v[j] == r[k];
        assert(p(v[j]));
    }
}

fn into_values<T>(entries: Vec<(String, T)>) -> (r: Vec<T>)
    ensures
        r@ == entries@.map_values(|e: (String, T)| e.1),
{
    let ghost given = entries@;
    let mut rest = entries;
    let mut out: Vec<T> = Vec::new();
    while rest.len() > 0
        invariant
            out@.len() + rest@.len() == given.len(),
            out@ == given.take(out@.len() as int).map_values(|e: (String, T)| e.1),
            rest@ == given.skip(out@.len() as int),
        decreases rest@.len(),
    {
        let (_, value) = rest.remove(0);
        let ghost n: int = out@.len() as int;
        out.push(value);
        proof {
            assert(given.take(n + 1).map_values(|e: (String, T)| e.1) =~= given.take(
                n as int,
            ).map_values(|e: (String, T)| e.1).push(given[n].1));
            assert(rest@ =~= given.skip(n + 1));
        }
    }
    proof {
        assert(given.take(out@.len() as int) =~= given);
    }
    out
}

/// What a successful closure holds: its groups ordered by name, and every
/// member the schema's own declaration, import or stream of that name.
/// What a closure holds, it holds because the family reaches it: each
/// declaration is reachable from the family's root, each import is met as
/// a type and each stream as a stream.
pub open spec fn closure_reached(s: TrueSchema, family: Seq<char>, c: FamilyClosure) -> bool {
    &&& forall|k: int|
        0 <= k < c.spec_declarations().len() ==> reached(s, family, (#[trigger] c.spec_declarations()[k]).spec_name()@)
    &&& forall|k: int|
        0 <= k < c.spec_imports().len() ==> met_as_type(s, family, (#[trigger] c.spec_imports()[k]).local_name@)
    &&& forall|k: int|
        0 <= k < c.spec_streams().len() ==> met_as_stream(s, family, (#[trigger] c.spec_streams()[k]).name@)
}

pub open spec fn closure_sound(s: TrueSchema, c: FamilyClosure) -> bool {
    &&& forall|k: int|
        0 <= k < c.spec_declarations().len() ==> resolved_declaration(
            s,
            (#[trigger] c.spec_declarations()[k]).spec_name()@,
        ) == Some(declaration_view(c.spec_declarations()[k]))
    &&& forall|i: int, j: int|
        0 <= i < j < c.spec_declarations().len() ==> !crate::order::text_less(
            (#[trigger] c.spec_declarations()[j]).spec_name()@,
            (#[trigger] c.spec_declarations()[i]).spec_name()@,
        )
    &&& forall|i: int, j: int|
        0 <= i < j < c.spec_declarations().len() ==> (#[trigger] c.spec_declarations()[i]).spec_name()@ != (#[trigger] c.spec_declarations()[j]).spec_name()@
    &&& forall|k: int|
        0 <= k < c.spec_imports().len() ==> resolved_import(s, (#[trigger] c.spec_imports()[k]).local_name@)
            == Some((c.spec_imports()[k].local_name@, c.spec_imports()[k].source@))
    &&& forall|i: int, j: int|
        0 <= i < j < c.spec_imports().len() ==> !crate::order::text_less(
            (#[trigger] c.spec_imports()[j]).local_name@,
            (#[trigger] c.spec_imports()[i]).local_name@,
        )
    &&& forall|i: int, j: int|
        0 <= i < j < c.spec_imports().len() ==> (#[trigger] c.spec_imports()[i]).local_name@ != (#[trigger] c.spec_imports()[j]).local_name@
    &&& forall|k: int|
        0 <= k < c.spec_streams().len() ==> resolved_stream(s, (#[trigger] c.spec_streams()[k]).name@)
            == Some(stream_view(c.spec_streams()[k]))
    &&& forall|i: int, j: int|
        0 <= i < j < c.spec_streams().len() ==> !crate::order::text_less(
            (#[trigger] c.spec_streams()[j]).name@,
            (#[trigger] c.spec_streams()[i]).name@,
        )
    &&& forall|i: int, j: int|
        0 <= i < j < c.spec_streams().len() ==> (#[trigger] c.spec_streams()[i]).name@ != (#[trigger] c.spec_streams()[j]).name@
}

impl TrueSchema {
    /// The declaration closure of the named family: the family root (a
    /// namespace declaration, a root enum, or an application root) and
    /// every declaration, import and stream reachable from it through type
    /// references, each group ordered by name.
    pub fn family_closure(&self, family_name: &str) -> (r: Result<FamilyClosure, SchemaError>)
        ensures
            !family_root_exists(*self, family_name@) ==> (r matches Err(
                SchemaError::FamilyRootNotFound { name },
            ) && name@ == family_name@),
            family_root_exists(*self, family_name@) && (forall|n: Seq<char>|
                #![trigger missing_name(*self, family_name@, n)]
                !missing_name(*self, family_name@, n)) ==> r is Ok,
            family_root_exists(*self, family_name@) && r is Err ==> reports_missing(
                r->Err_0,
                *self,
                family_name@,
            ),
            r matches Ok(c) ==> closure_complete(c) && closure_reached(*self, family_name@, c),
            r matches Ok(c) ==> c.spec_root()@ == family_name@ && closure_sound(*self, c) && match family_root_application(
                *self,
                family_name@,
            ) {
                Some(a) => c.spec_root_application() is Some && c.spec_root_application().unwrap()@
                    == a,
                None => c.spec_root_application() is None,
            },
    {
        let mut walk = ClosureWalk {
            schema: self,
            family: family_name,
            members: Vec::new(),
            imports: Vec::new(),
            streams: Vec::new(),
            scopes: Vec::new(),
            stack: Vec::new(),
            stream_scopes: Ghost(Seq::empty()),
            origin: Ghost(None),
        };
        walk.scopes.push(Vec::new());
        proof {
            assert(keys_of(walk.members@) =~= Seq::<Seq<char>>::empty());
            assert(keys_of(walk.imports@) =~= Seq::<Seq<char>>::empty());
            assert(keys_of(walk.streams@) =~= Seq::<Seq<char>>::empty());
        }
        let root_name: Name;
        let root_application: Option<TypeReference>;
        match self.namespace_declaration_named(family_name) {
            Some(declaration) => {
                proof {
                    lemma_first_match(self.spec_namespace(), crate::true_schema::declaration_spelled(family_name@));
                }
                root_name = declaration.name().clone();
                root_application = None;
                let copy = copy_declaration(declaration);
                proof {
                    assert(reached_within(*self, family_name@, family_name@, 0));
                }
                walk.take_in(family_name.to_owned(), copy);
                proof {
                    assert(keys_of(walk.members@)[0] == family_name@);
                }
            },
            None => match self.root_named(family_name) {
                None => {
                    return Err(SchemaError::FamilyRootNotFound { name: family_name.to_owned() });
                },
                Some(Root::Application(application)) => {
                    root_name = application.name().clone();
                    let reference = application.to_reference();
                    walk.origin = Ghost(Some(reference@));
                    let task = WalkTask::Reference(copy_reference(&reference), 0);
                    walk.push_task(task);
                    proof {
                        assert forall|n: Seq<char>| #[trigger] mentions(reference@, n) implies walk.covered(walk.stack@, n, 0) by {
                            assert(task_mentions(task, n));
                        }
                        assert forall|j: int| 0 <= j < walk.stack@.len() implies walk.task_sourced(#[trigger] walk.stack@[j]) by {
                            assert(walk.stack@[j] == task);
                        }
                    }
                    root_application = Some(reference);
                },
                Some(Root::Enum(root)) => {
                    root_name = root.name.clone();
                    root_application = None;
                    let declaration = Declaration::public(TypeDeclaration::Enum(root.clone()));
                    proof {
                        assert(crate::schema::names_view(declaration.spec_parameters()) =~= Seq::<
                            Seq<char>,
                        >::empty());
                        declaration.spec_impls().lemma_view();
                        assert(declaration.spec_impls()@ =~= Seq::<crate::impls::ImplRefView>::empty());
                        assert(declaration_view(declaration) =~= root_declaration_view(*root));
                    }
                    proof {
                        assert(reached_within(*self, family_name@, family_name@, 0));
                    }
                    walk.take_in(family_name.to_owned(), declaration);
                    proof {
                        assert(keys_of(walk.members@)[0] == family_name@);
                    }
                },
            },
        }
        let ghost started = walk;
        let outcome = walk.run();
        if let Err(error) = outcome {
            return Err(error);
        }
        let ghost finished = walk;
        let ghost members = walk.members@;
        let ghost imports = walk.imports@;
        let ghost streams = walk.streams@;
        let ClosureWalk { members: member_entries, imports: import_entries, streams: stream_entries, .. } = walk;
        let sorted_members = sort_by_key(member_entries);
        let sorted_imports = sort_by_key(import_entries);
        let sorted_streams = sort_by_key(stream_entries);
        proof {
            lemma_permutation_preserves(sorted_members@, members, member_pred(*self));
            lemma_permutation_preserves(sorted_imports@, imports, import_pred(*self));
            lemma_permutation_preserves(sorted_streams@, streams, stream_pred(*self));
            assert forall|k: int| 0 <= k < streams.len() implies met_as_stream(*self, family_name@, #[trigger] streams[k].0@) by {
                let sc = finished.stream_scopes@[k];
                assert(1 <= sc <= members.len());
                assert(member_ok(*self, members[sc - 1]));
                assert(reached(*self, family_name@, members[sc - 1].0@));
                assert(declaration_relates(members[sc - 1].1, streams[k].0@));
            }
            assert forall|k: int| 0 <= k < members.len() implies #[trigger] reached_member(*self, family_name@)(members[k]) by {
                assert(finished.members@[k] == members[k]);
            }
            assert forall|k: int| 0 <= k < imports.len() implies #[trigger] met_import(*self, family_name@)(imports[k]) by {
                assert(finished.imports@[k] == imports[k]);
            }
            assert forall|k: int| 0 <= k < streams.len() implies #[trigger] met_stream(*self, family_name@)(streams[k]) by {}
            lemma_permutation_preserves(sorted_members@, members, reached_member(*self, family_name@));
            lemma_permutation_preserves(sorted_imports@, imports, met_import(*self, family_name@));
            lemma_permutation_preserves(sorted_streams@, streams, met_stream(*self, family_name@));
            lemma_keys_stay_distinct(sorted_members@, members);
            lemma_keys_stay_distinct(sorted_imports@, imports);
            lemma_keys_stay_distinct(sorted_streams@, streams);
        }
        let declarations = into_values(sorted_members);
        let import_values = into_values(sorted_imports);
        let stream_values = into_values(sorted_streams);
        let closure = FamilyClosure {
            root: root_name,
            root_application,
            declarations,
            imports: import_values,
            streams: stream_values,
        };
        proof {
            if closure.spec_root_application() is None {
                assert(keys_of(started.members@).contains(family_name@));
                lemma_keys_prefix(started.members@, finished.members@, family_name@);
            }
            lemma_walk_complete(finished, sorted_members@, sorted_imports@, sorted_streams@, closure);
            assert forall|k: int| 0 <= k < closure.spec_declarations().len() implies resolved_declaration(
                *self,
                (#[trigger] closure.spec_declarations()[k]).spec_name()@,
            ) == Some(declaration_view(closure.spec_declarations()[k])) by {
                assert(member_pred(*self)(sorted_members@[k]));
            }
            assert forall|i: int, j: int| 0 <= i < j < closure.spec_declarations().len() implies !crate::order::text_less(
                (#[trigger] closure.spec_declarations()[j]).spec_name()@,
                (#[trigger] closure.spec_declarations()[i]).spec_name()@,
            ) by {
                assert(member_pred(*self)(sorted_members@[i]));
                assert(member_pred(*self)(sorted_members@[j]));
                assert(keys_of(sorted_members@)[i] == sorted_members@[i].0@);
                assert(keys_of(sorted_members@)[j] == sorted_members@[j].0@);
            }
            assert forall|i: int, j: int| 0 <= i < j < closure.spec_declarations().len() implies (#[trigger] closure.spec_declarations()[i]).spec_name()@
                != (#[trigger] closure.spec_declarations()[j]).spec_name()@ by {
                assert(member_pred(*self)(sorted_members@[i]));
                assert(member_pred(*self)(sorted_members@[j]));
                assert(keys_of(sorted_members@)[i] == sorted_members@[i].0@);
                assert(keys_of(sorted_members@)[j] == sorted_members@[j].0@);
            }
            assert forall|k: int| 0 <= k < closure.spec_imports().len() implies resolved_import(
                *self,
                (#[trigger] closure.spec_imports()[k]).local_name@,
            ) == Some((closure.spec_imports()[k].local_name@, closure.spec_imports()[k].source@)) by {
                assert(import_pred(*self)(sorted_imports@[k]));
            }
            assert forall|i: int, j: int| 0 <= i < j < closure.spec_imports().len() implies !crate::order::text_less(
                (#[trigger] closure.spec_imports()[j]).local_name@,
                (#[trigger] closure.spec_imports()[i]).local_name@,
            ) by {
                assert(import_pred(*self)(sorted_imports@[i]));
                assert(import_pred(*self)(sorted_imports@[j]));
                assert(keys_of(sorted_imports@)[i] == sorted_imports@[i].0@);
                assert(keys_of(sorted_imports@)[j] == sorted_imports@[j].0@);
            }
            assert forall|i: int, j: int| 0 <= i < j < closure.spec_imports().len() implies (#[trigger] closure.spec_imports()[i]).local_name@
                != (#[trigger] closure.spec_imports()[j]).local_name@ by {
                assert(import_pred(*self)(sorted_imports@[i]));
                assert(import_pred(*self)(sorted_imports@[j]));
                assert(keys_of(sorted_imports@)[i] == sorted_imports@[i].0@);
                assert(keys_of(sorted_imports@)[j] == sorted_imports@[j].0@);
            }
            assert forall|k: int| 0 <= k < closure.spec_streams().len() implies resolved_stream(
                *self,
                (#[trigger] closure.spec_streams()[k]).name@,
            ) == Some(stream_view(closure.spec_streams()[k])) by {
                assert(stream_pred(*self)(sorted_streams@[k]));
            }
            assert forall|i: int, j: int| 0 <= i < j < closure.spec_streams().len() implies !crate::order::text_less(
                (#[trigger] closure.spec_streams()[j]).name@,
                (#[trigger] closure.spec_streams()[i]).name@,
            ) by {
                assert(stream_pred(*self)(sorted_streams@[i]));
                assert(stream_pred(*self)(sorted_streams@[j]));
                assert(keys_of(sorted_streams@)[i] == sorted_streams@[i].0@);
                assert(keys_of(sorted_streams@)[j] == sorted_streams@[j].0@);
            }
            assert forall|i: int, j: int| 0 <= i < j < closure.spec_streams().len() implies (#[trigger] closure.spec_streams()[i]).name@
                != (#[trigger] closure.spec_streams()[j]).name@ by {
                assert(stream_pred(*self)(sorted_streams@[i]));
                assert(stream_pred(*self)(sorted_streams@[j]));
                assert(keys_of(sorted_streams@)[i] == sorted_streams@[i].0@);
                assert(keys_of(sorted_streams@)[j] == sorted_streams@[j].0@);
            }
        }
        proof {
            assert forall|k: int| 0 <= k < closure.spec_declarations().len() implies reached(
                *self,
                family_name@,
                (#[trigger] closure.spec_declarations()[k]).spec_name()@,
            ) by {
                assert(member_pred(*self)(sorted_members@[k]));
                assert(reached_member(*self, family_name@)(sorted_members@[k]));
            }
            assert forall|k: int| 0 <= k < closure.spec_imports().len() implies met_as_type(
                *self,
                family_name@,
                (#[trigger] closure.spec_imports()[k]).local_name@,
            ) by {
                assert(import_pred(*self)(sorted_imports@[k]));
                assert(met_import(*self, family_name@)(sorted_imports@[k]));
            }
            assert forall|k: int| 0 <= k < closure.spec_streams().len() implies met_as_stream(
                *self,
                family_name@,
                (#[trigger] closure.spec_streams()[k]).name@,
            ) by {
                assert(stream_pred(*self)(sorted_streams@[k]));
                assert(met_stream(*self, family_name@)(sorted_streams@[k]));
            }
        }
        Ok(closure)
    }
}

/// Two schemas that agree on their namespace, roots and streams reach the
/// same declarations from every family within every depth.
proof fn lemma_reached_agrees(s1: TrueSchema, s2: TrueSchema, f: Seq<char>, depth: nat)
    requires
        s1.spec_namespace() == s2.spec_namespace(),
        s1.spec_input() == s2.spec_input(),
        s1.spec_output() == s2.spec_output(),
        s1.spec_streams() == s2.spec_streams(),
    ensures
        forall|n: Seq<char>| #[trigger] reached_within(s1, f, n, depth) == reached_within(s2, f, n, depth),
    decreases depth,
{
    assert forall|n: Seq<char>| #[trigger] resolved_declaration(s1, n) == resolved_declaration(s2, n) by {}
    assert forall|d: Declaration| #[trigger] resolves_to_itself(s1, d) == resolves_to_itself(s2, d) by {}
    assert forall|x: StreamDeclaration| #[trigger] stream_resolves_to_itself(s1, x) == stream_resolves_to_itself(s2, x) by {}
    assert forall|d: Declaration, n: Seq<char>| #[trigger] leads_to(s1, d, n) == leads_to(s2, d, n) by {}
    if depth > 0 {
        let p = (depth - 1) as nat;
        lemma_reached_agrees(s1, s2, f, p);
        assert forall|n: Seq<char>| #[trigger] reached_within(s1, f, n, depth) implies reached_within(s2, f, n, depth) by {
            if !reached_within(s1, f, n, p) {
                let d = choose|d: Declaration|
                    resolves_to_itself(s1, d) && reached_within(s1, f, d.spec_name()@, p) && #[trigger] leads_to(s1, d, n);
                assert(reached_within(s2, f, d.spec_name()@, p));
                assert(leads_to(s2, d, n));
            }
        }
        assert forall|n: Seq<char>| #[trigger] reached_within(s2, f, n, depth) implies reached_within(s1, f, n, depth) by {
            if !reached_within(s2, f, n, p) {
                let d = choose|d: Declaration|
                    resolves_to_itself(s2, d) && reached_within(s2, f, d.spec_name()@, p) && #[trigger] leads_to(s2, d, n);
                assert(reached_within(s1, f, d.spec_name()@, p));
                assert(leads_to(s1, d, n));
                assert(resolves_to_itself(s1, d));
                assert(resolved_declaration(s1, n) is Some);
            } else {
                assert(reached_within(s1, f, n, p));
            }
        }
    }
}

/// Relations and the schema's identity lie outside every family closure:
/// two schemas that agree on their namespace, roots, imports and streams
/// agree on which families exist, where each walk starts, what each
/// family reaches, which names are missing, and which closures are sound,
/// so every contract of `family_closure` reads the same for both.
pub proof fn lemma_closure_reads_no_relations(s1: TrueSchema, s2: TrueSchema)
    requires
        s1.spec_namespace() == s2.spec_namespace(),
        s1.spec_input() == s2.spec_input(),
        s1.spec_output() == s2.spec_output(),
        s1.spec_imports() == s2.spec_imports(),
        s1.spec_streams() == s2.spec_streams(),
    ensures
        forall|f: Seq<char>| #[trigger] family_root_exists(s1, f) == family_root_exists(s2, f),
        forall|f: Seq<char>| #[trigger] family_root_application(s1, f) == family_root_application(s2, f),
        forall|f: Seq<char>, n: Seq<char>| #[trigger] missing_name(s1, f, n) == missing_name(s2, f, n),
        forall|c: FamilyClosure| #[trigger] closure_sound(s1, c) == closure_sound(s2, c),
        forall|f: Seq<char>, c: FamilyClosure| #[trigger] closure_reached(s1, f, c) == closure_reached(s2, f, c),
{
    assert forall|n: Seq<char>| #[trigger] resolved_declaration(s1, n) == resolved_declaration(s2, n) by {}
    assert forall|d: Declaration| #[trigger] resolves_to_itself(s1, d) == resolves_to_itself(s2, d) by {}
    assert forall|x: StreamDeclaration| #[trigger] stream_resolves_to_itself(s1, x) == stream_resolves_to_itself(s2, x) by {}
    assert forall|d: Declaration, n: Seq<char>| #[trigger] leads_to(s1, d, n) == leads_to(s2, d, n) by {}
    assert forall|f: Seq<char>, n: Seq<char>| #[trigger] reached(s1, f, n) == reached(s2, f, n) by {
        if reached(s1, f, n) {
            let depth = choose|depth: nat| #[trigger] reached_within(s1, f, n, depth);
            lemma_reached_agrees(s1, s2, f, depth);
            assert(reached_within(s2, f, n, depth));
        }
        if reached(s2, f, n) {
            let depth = choose|depth: nat| #[trigger] reached_within(s2, f, n, depth);
            lemma_reached_agrees(s1, s2, f, depth);
            assert(reached_within(s1, f, n, depth));
        }
    }
    assert forall|f: Seq<char>, n: Seq<char>| #[trigger] met_as_type(s1, f, n) == met_as_type(s2, f, n) by {
        if met_as_type(s1, f, n) && !(family_root_application(s1, f) matches Some(a) && mentions(a, n)) {
            let d = choose|d: Declaration|
                resolves_to_itself(s1, d) && reached(s1, f, d.spec_name()@) && #[trigger] leads_to(s1, d, n);
            assert(reached(s2, f, d.spec_name()@) && leads_to(s2, d, n));
        }
        if met_as_type(s2, f, n) && !(family_root_application(s2, f) matches Some(a) && mentions(a, n)) {
            let d = choose|d: Declaration|
                resolves_to_itself(s2, d) && reached(s2, f, d.spec_name()@) && #[trigger] leads_to(s2, d, n);
            assert(reached(s1, f, d.spec_name()@) && leads_to(s1, d, n) && resolves_to_itself(s1, d));
        }
    }
    assert forall|f: Seq<char>, n: Seq<char>| #[trigger] met_as_stream(s1, f, n) == met_as_stream(s2, f, n) by {
        if met_as_stream(s1, f, n) {
            let d = choose|d: Declaration|
                resolves_to_itself(s1, d) && reached(s1, f, d.spec_name()@) && #[trigger] declaration_relates(d, n);
            assert(reached(s2, f, d.spec_name()@) && resolves_to_itself(s2, d));
        }
        if met_as_stream(s2, f, n) {
            let d = choose|d: Declaration|
                resolves_to_itself(s2, d) && reached(s2, f, d.spec_name()@) && #[trigger] declaration_relates(d, n);
            assert(reached(s1, f, d.spec_name()@) && resolves_to_itself(s1, d));
        }
    }
}

} // verus!
