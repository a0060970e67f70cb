//! Where a schema module's parts stand in its source text: positions,
//! ranges, and the labelled root blocks of a module.
use vstd::prelude::*;
use vstd::utf8::{encode_scalar, encode_utf8};

use crate::error::SchemaError;
use crate::lowering::{checked, lower_source, lowered_into, reports_lower};
use crate::module::SchemaModuleSource;
use crate::name::Name;
use crate::schema::{ImportDeclaration, ResolvedImport};
use crate::source::SchemaSourceArtifact;
use crate::true_schema::TrueSchema;

verus! {

// ---------------------------------------------------------------- positions
/// A place in source text: its UTF-8 byte offset, and its one-based line and
/// column counted in characters.
#[derive(Clone, Copy, Debug, PartialEq, Eq, Structural)]
pub struct SchemaSourcePosition {
    pub byte: usize,
    pub line: usize,
    pub column: usize,
}

/// How many bytes UTF-8 spends on a character.
pub open spec fn utf8_width(c: char) -> nat {
    encode_scalar(c as u32).len()
}

/// How many line breaks a text holds.
pub open spec fn line_breaks(s: Seq<char>) -> nat
    decreases s.len(),
{
    if s.len() == 0 {
        0
    } else {
        line_breaks(s.drop_last()) + if s.last() == '\n' {
            1nat
        } else {
            0nat
        }
    }
}

/// The one-based column after a text: one more than the characters since
/// its last line break.
pub open spec fn column_after(s: Seq<char>) -> nat
    decreases s.len(),
{
    if s.len() == 0 {
        1
    } else if s.last() == '\n' {
        1
    } else {
        column_after(s.drop_last()) + 1
    }
}

/// The position reached after reading a text from the start of a document.
pub open spec fn position_after(s: Seq<char>) -> (nat, nat, nat) {
    (encode_utf8(s).len(), line_breaks(s) + 1, column_after(s))
}

proof fn lemma_encode_append(a: Seq<char>, b: Seq<char>)
    ensures
        encode_utf8(a + b) == encode_utf8(a) + encode_utf8(b),
    decreases a.len(),
{
    if a.len() == 0 {
        assert(a + b =~= b);
        assert(encode_utf8(a) =~= Seq::<u8>::empty());
        assert(encode_utf8(a) + encode_utf8(b) =~= encode_utf8(b));
    } else {
        assert((a + b).drop_first() =~= a.drop_first() + b);
        assert((a + b)[0] == a[0]);
        lemma_encode_append(a.drop_first(), b);
        assert(encode_utf8(a + b) =~= encode_scalar(a[0] as u32) + (encode_utf8(a.drop_first()) + encode_utf8(
            b,
        )));
    }
}

proof fn lemma_encode_push(s: Seq<char>, c: char)
    ensures
        encode_utf8(s.push(c)).len() == encode_utf8(s).len() + utf8_width(c),
{
    let one = seq![c];
    lemma_encode_append(s, one);
    assert(s.push(c) =~= s + one);
    assert(one.drop_first() =~= Seq::<char>::empty());
    assert(encode_utf8(one.drop_first()) =~= Seq::<u8>::empty());
    assert(one[0] == c);
    assert(encode_utf8(one) == encode_scalar(one[0] as u32) + encode_utf8(one.drop_first()));
    assert(encode_utf8(one) =~= encode_scalar(c as u32));
}

proof fn lemma_encode_prefix(s: Seq<char>, i: int)
    requires
        0 <= i <= s.len(),
    ensures
        encode_utf8(s.take(i)).len() <= encode_utf8(s).len(),
{
    lemma_encode_append(s.take(i), s.skip(i));
    assert(s.take(i) + s.skip(i) =~= s);
}

proof fn lemma_counts_bounded(s: Seq<char>)
    ensures
        line_breaks(s) <= s.len(),
        column_after(s) <= s.len() + 1,
    decreases s.len(),
{
    if s.len() > 0 {
        lemma_counts_bounded(s.drop_last());
    }
}

proof fn lemma_width_at_least_one(s: Seq<char>)
    ensures
        s.len() <= encode_utf8(s).len(),
    decreases s.len(),
{
    if s.len() > 0 {
        lemma_width_at_least_one(s.drop_first());
        let v = s[0] as u32;
        assert(encode_scalar(v).len() >= 1);
    }
}

/// The bytes UTF-8 spends on a character, as the standard library counts
/// them.
fn char_width(c: char) -> (r: usize)
    ensures
        r == utf8_width(c),
        1 <= r <= 4,
{
    proof {
        broadcast use vstd::utf8::char_is_scalar;
    }
    let v = c as u32;
    if v < 0x80 {
        1
    } else if v < 0x800 {
        2
    } else if v < 0x10000 {
        3
    } else {
        4
    }
}

impl SchemaSourcePosition {
    pub fn byte(&self) -> (r: usize)
        ensures
            r == self.byte,
    {
        self.byte
    }

    pub fn line(&self) -> (r: usize)
        ensures
            r == self.line,
    {
        self.line
    }

    pub fn column(&self) -> (r: usize)
        ensures
            r == self.column,
    {
        self.column
    }

    /// The start of a document: byte zero, line one, column one.
    pub fn new_document_start() -> (r: Self)
        ensures
            r.byte == 0 && r.line == 1 && r.column == 1,
    {
        SchemaSourcePosition { byte: 0, line: 1, column: 1 }
    }

    /// The position at the end of a source text. One-based line and column
    /// counts must fit, so the text holds fewer than `usize::MAX` characters.
    pub fn from_source_text(source: &str) -> (r: Self)
        requires
            source@.len() < usize::MAX,
        ensures
            (r.byte as nat, r.line as nat, r.column as nat) == position_after(source@),
    {
        let total = source.as_bytes().len();
        let chars = crate::text::text_chars(source);
        let ghost s = source@;
        proof {
            lemma_width_at_least_one(s);
            assert(s.take(0) =~= Seq::<char>::empty());
            assert(encode_utf8(Seq::<char>::empty()) =~= Seq::<u8>::empty());
        }
        let mut position = Self::new_document_start();
        let mut i: usize = 0;
        while i < chars.len()
            invariant
                i <= chars@.len(),
                chars@ == s,
                total as nat == encode_utf8(s).len(),
                s.len() < usize::MAX,
                s.len() <= encode_utf8(s).len(),
                (position.byte as nat, position.line as nat, position.column as nat) == position_after(
                    s.take(i as int),
                ),
            decreases chars@.len() - i,
        {
            let c = chars[i];
            let width = char_width(c);
            proof {
                let t = s.take(i + 1);
                assert(t.drop_last() =~= s.take(i as int));
                assert(t.last() == c);
                assert(s.take(i as int).push(c) =~= t);
                lemma_encode_push(s.take(i as int), c);
                lemma_encode_prefix(s, i + 1);
                lemma_counts_bounded(t);
            }
            position.byte = position.byte + width;
            if c == '\n' {
                position.line = position.line + 1;
                position.column = 1;
            } else {
                position.column = position.column + 1;
            }
            i = i + 1;
        }
        proof {
            assert(s.take(i as int) =~= s);
        }
        position
    }
}

/// A stretch of source text between two positions.
#[derive(Clone, Copy, Debug, PartialEq, Eq, Structural)]
pub struct SchemaSourceRange {
    pub start: SchemaSourcePosition,
    pub end: SchemaSourcePosition,
}

impl SchemaSourceRange {
    pub fn new(start: SchemaSourcePosition, end: SchemaSourcePosition) -> (r: Self)
        ensures
            r.start == start && r.end == end,
    {
        SchemaSourceRange { start, end }
    }

    pub fn start(&self) -> (r: &SchemaSourcePosition)
        ensures
            *r == self.start,
    {
        &self.start
    }

    pub fn end(&self) -> (r: &SchemaSourcePosition)
        ensures
            *r == self.end,
    {
        &self.end
    }

    /// The whole of a source text: from the document start to its end.
    pub fn from_source_text(source: &str) -> (r: Self)
        requires
            source@.len() < usize::MAX,
        ensures
            r.start.byte == 0 && r.start.line == 1 && r.start.column == 1,
            (r.end.byte as nat, r.end.line as nat, r.end.column as nat) == position_after(source@),
    {
        SchemaSourceRange {
            start: SchemaSourcePosition::new_document_start(),
            end: SchemaSourcePosition::from_source_text(source),
        }
    }
}

// ---------------------------------------------------------------- root blocks
/// Which root of a module a block is.
#[derive(Clone, Copy, Debug, PartialEq, Eq, Structural)]
pub enum SchemaRootBlockKind {
    Imports,
    Input,
    Output,
    Namespace,
    Relations,
}

/// The kind of node a labelled stretch of a module is.
#[derive(Clone, Copy, Debug, PartialEq, Eq, Structural)]
pub enum SchemaNodeType {
    Module,
    Imports,
    InputRoot,
    OutputRoot,
    Namespace,
    Relations,
}

pub open spec fn node_of_kind(kind: SchemaRootBlockKind) -> SchemaNodeType {
    match kind {
        SchemaRootBlockKind::Imports => SchemaNodeType::Imports,
        SchemaRootBlockKind::Input => SchemaNodeType::InputRoot,
        SchemaRootBlockKind::Output => SchemaNodeType::OutputRoot,
        SchemaRootBlockKind::Namespace => SchemaNodeType::Namespace,
        SchemaRootBlockKind::Relations => SchemaNodeType::Relations,
    }
}

impl SchemaNodeType {
    pub fn from_root_block_kind(kind: SchemaRootBlockKind) -> (r: Self)
        ensures
            r == node_of_kind(kind),
    {
        match kind {
            SchemaRootBlockKind::Imports => SchemaNodeType::Imports,
            SchemaRootBlockKind::Input => SchemaNodeType::InputRoot,
            SchemaRootBlockKind::Output => SchemaNodeType::OutputRoot,
            SchemaRootBlockKind::Namespace => SchemaNodeType::Namespace,
            SchemaRootBlockKind::Relations => SchemaNodeType::Relations,
        }
    }
}

/// What the summary reads of one root object of a parsed module: whether it
/// is a brace block, and where it stands.
#[derive(Clone, Copy, Debug, PartialEq, Eq, Structural)]
pub struct SchemaRootObject {
    pub is_brace: bool,
    pub span: SchemaSourceRange,
}

/// One root block of a module: its kind, its range, and its node type.
#[derive(Clone, Copy, Debug, PartialEq, Eq, Structural)]
pub struct SchemaRootBlockSummary {
    pub kind: SchemaRootBlockKind,
    pub range: SchemaSourceRange,
    pub node_type: SchemaNodeType,
}

pub open spec fn block_at(roots: Seq<SchemaRootObject>, index: int, kind: SchemaRootBlockKind) -> Seq<SchemaRootBlockSummary> {
    if 0 <= index < roots.len() {
        seq![SchemaRootBlockSummary { kind, range: roots[index].span, node_type: node_of_kind(kind) }]
    } else {
        Seq::empty()
    }
}

/// A module's root blocks: a leading brace block is its imports, and the
/// input, output, namespace and relations roots follow in that order, each
/// where the module has one.
pub open spec fn root_blocks(roots: Seq<SchemaRootObject>) -> Seq<SchemaRootBlockSummary> {
    let first_is_imports = roots.len() > 0 && roots[0].is_brace;
    let input = if first_is_imports {
        1int
    } else {
        0int
    };
    let imports = if first_is_imports {
        block_at(roots, 0, SchemaRootBlockKind::Imports)
    } else {
        Seq::empty()
    };
    imports + block_at(roots, input, SchemaRootBlockKind::Input) + block_at(
        roots,
        input + 1,
        SchemaRootBlockKind::Output,
    ) + block_at(roots, input + 2, SchemaRootBlockKind::Namespace) + block_at(
        roots,
        input + 3,
        SchemaRootBlockKind::Relations,
    )
}

impl SchemaRootBlockSummary {
    pub fn kind(&self) -> (r: SchemaRootBlockKind)
        ensures
            r == self.kind,
    {
        self.kind
    }

    pub fn range(&self) -> (r: &SchemaSourceRange)
        ensures
            *r == self.range,
    {
        &self.range
    }

    pub fn node_type(&self) -> (r: SchemaNodeType)
        ensures
            r == self.node_type,
    {
        self.node_type
    }

    fn push_block_at(out: &mut Vec<SchemaRootBlockSummary>, roots: &[SchemaRootObject], index: usize, kind: SchemaRootBlockKind)
        ensures
            final(out)@ == old(out)@ + block_at(roots@, index as int, kind),
    {
        if index < roots.len() {
            out.push(
                SchemaRootBlockSummary {
                    kind,
                    range: roots[index].span,
                    node_type: SchemaNodeType::from_root_block_kind(kind),
                },
            );
            assert(out@ =~= old(out)@ + block_at(roots@, index as int, kind));
        } else {
            assert(out@ =~= old(out)@ + block_at(roots@, index as int, kind));
        }
    }

    /// The root blocks of a module, read from its root objects in order.
    pub fn from_document(roots: &[SchemaRootObject]) -> (r: Vec<SchemaRootBlockSummary>)
        ensures
            r@ == root_blocks(roots@),
    {
        let first_is_imports = roots.len() > 0 && roots[0].is_brace;
        let mut blocks: Vec<SchemaRootBlockSummary> = Vec::new();
        if first_is_imports {
            Self::push_block_at(&mut blocks, roots, 0, SchemaRootBlockKind::Imports);
        }
        let input: usize = if first_is_imports { 1 } else { 0 };
        Self::push_block_at(&mut blocks, roots, input, SchemaRootBlockKind::Input);
        Self::push_block_at(&mut blocks, roots, input + 1, SchemaRootBlockKind::Output);
        Self::push_block_at(&mut blocks, roots, input + 2, SchemaRootBlockKind::Namespace);
        Self::push_block_at(&mut blocks, roots, input + 3, SchemaRootBlockKind::Relations);
        assert(blocks@ =~= root_blocks(roots@));
        blocks
    }
}

/// A labelled stretch of a module: its node type and range.
#[derive(Clone, Copy, Debug, PartialEq, Eq, Structural)]
pub struct SchemaNodeTypeLabel {
    pub node_type: SchemaNodeType,
    pub range: SchemaSourceRange,
}

impl SchemaNodeTypeLabel {
    pub fn node_type(&self) -> (r: SchemaNodeType)
        ensures
            r == self.node_type,
    {
        self.node_type
    }

    pub fn range(&self) -> (r: &SchemaSourceRange)
        ensures
            *r == self.range,
    {
        &self.range
    }
}

pub open spec fn label_of_block(b: SchemaRootBlockSummary) -> SchemaNodeTypeLabel {
    SchemaNodeTypeLabel { node_type: b.node_type, range: b.range }
}

/// The labels of a module: the whole file as the module, then each root
/// block.
pub open spec fn module_labels(file: SchemaSourceRange, blocks: Seq<SchemaRootBlockSummary>) -> Seq<SchemaNodeTypeLabel> {
    seq![SchemaNodeTypeLabel { node_type: SchemaNodeType::Module, range: file }] + blocks.map_values(
        |b: SchemaRootBlockSummary| label_of_block(b),
    )
}

fn labels_from_summary_parts(file: SchemaSourceRange, blocks: &[SchemaRootBlockSummary]) -> (r: Vec<SchemaNodeTypeLabel>)
    ensures
        r@ == module_labels(file, blocks@),
{
    let mut labels: Vec<SchemaNodeTypeLabel> = Vec::new();
    labels.push(SchemaNodeTypeLabel { node_type: SchemaNodeType::Module, range: file });
    let mut i: usize = 0;
    while i < blocks.len()
        invariant
            i <= blocks@.len(),
            labels@.len() == i + 1,
            labels@[0] == (SchemaNodeTypeLabel { node_type: SchemaNodeType::Module, range: file }),
            forall|k: int| 0 <= k < i ==> #[trigger] labels@[k + 1] == label_of_block(blocks@[k]),
        decreases blocks@.len() - i,
    {
        let b = blocks[i];
        labels.push(SchemaNodeTypeLabel { node_type: b.node_type, range: b.range });
        i = i + 1;
    }
    assert(labels@ =~= module_labels(file, blocks@)) by {
        assert forall|k: int| 0 <= k < labels@.len() implies #[trigger] labels@[k] == module_labels(
            file,
            blocks@,
        )[k] by {
            if k > 0 {
                assert(labels@[(k - 1) + 1] == label_of_block(blocks@[k - 1]));
            }
        }
    }
    labels
}

// ---------------------------------------------------------------- module summaries
/// Where a module's parts stand: its path, the range of its whole text, its
/// root blocks, and the labels over them.
#[derive(Debug)]
pub struct SchemaSourceSummary {
    pub path: String,
    pub file_range: SchemaSourceRange,
    pub root_blocks: Vec<SchemaRootBlockSummary>,
    pub node_type_labels: Vec<SchemaNodeTypeLabel>,
}

impl SchemaSourceSummary {
    pub fn path(&self) -> (r: &str)
        ensures
            r@ == self.path@,
    {
        self.path.as_str()
    }

    pub fn file_range(&self) -> (r: &SchemaSourceRange)
        ensures
            *r == self.file_range,
    {
        &self.file_range
    }

    pub fn root_blocks(&self) -> (r: &[SchemaRootBlockSummary])
        ensures
            r@ == self.root_blocks@,
    {
        self.root_blocks.as_slice()
    }

    pub fn node_type_labels(&self) -> (r: &[SchemaNodeTypeLabel])
        ensures
            r@ == self.node_type_labels@,
    {
        self.node_type_labels.as_slice()
    }

    /// The summary of a module at `path` with the given text, whose parsed
    /// root objects are `roots`.
    pub fn from_module_source(path: &str, source: &str, roots: &[SchemaRootObject]) -> (r: Self)
        requires
            source@.len() < usize::MAX,
        ensures
            r.path@ == path@,
            r.file_range.start.byte == 0 && r.file_range.start.line == 1 && r.file_range.start.column == 1,
            (r.file_range.end.byte as nat, r.file_range.end.line as nat, r.file_range.end.column as nat)
                == position_after(source@),
            r.root_blocks@ == root_blocks(roots@),
            r.node_type_labels@ == module_labels(r.file_range, r.root_blocks@),
    {
        let root_blocks = SchemaRootBlockSummary::from_document(roots);
        let file_range = SchemaSourceRange::from_source_text(source);
        let node_type_labels = labels_from_summary_parts(file_range, root_blocks.as_slice());
        SchemaSourceSummary { path: path.to_owned(), file_range, root_blocks, node_type_labels }
    }
}

// ---------------------------------------------------------------- environments
/// The modules an environment loads, by name.
#[derive(Debug)]
pub struct SchemaEnvironmentManifest {
    pub module_names: Vec<Name>,
}

impl SchemaEnvironmentManifest {
    pub fn new(module_names: Vec<Name>) -> (r: Self)
        ensures
            r.module_names == module_names,
    {
        SchemaEnvironmentManifest { module_names }
    }

    pub fn module_names(&self) -> (r: &[Name])
        ensures
            r@ == self.module_names@,
    {
        self.module_names.as_slice()
    }
}

/// The schema a module load gave, or why it failed.
pub open spec fn module_schema(r: Result<SchemaEnvironmentModule, SchemaError>) -> Result<TrueSchema, SchemaError> {
    match r {
        Ok(m) => Ok(m.true_schema),
        Err(e) => Err(e),
    }
}

/// One loaded module: its source, its parsed artifact, the schema it lowered
/// to, and its summary.
#[derive(Debug)]
pub struct SchemaEnvironmentModule {
    pub source: SchemaModuleSource,
    pub artifact: SchemaSourceArtifact,
    pub true_schema: TrueSchema,
    pub summary: SchemaSourceSummary,
}

impl SchemaEnvironmentModule {
    pub fn source(&self) -> (r: &SchemaModuleSource)
        ensures
            *r == self.source,
    {
        &self.source
    }

    pub fn artifact(&self) -> (r: &SchemaSourceArtifact)
        ensures
            *r == self.artifact,
    {
        &self.artifact
    }

    pub fn true_schema(&self) -> (r: &TrueSchema)
        ensures
            *r == self.true_schema,
    {
        &self.true_schema
    }

    pub fn summary(&self) -> (r: &SchemaSourceSummary)
        ensures
            *r == self.summary,
    {
        &self.summary
    }

    /// A module from its source and what parsing it gave: the parsed source
    /// is lowered under the module's identity with the given imports, and
    /// the module's text is summarised.
    pub fn from_parsed(
        source: SchemaModuleSource,
        artifact: SchemaSourceArtifact,
        roots: &[SchemaRootObject],
        imports: Vec<ImportDeclaration>,
        resolved_imports: Vec<ResolvedImport>,
    ) -> (r: Result<Self, SchemaError>)
        requires
            source.spec_source().len() < usize::MAX,
        ensures
            lower_source(artifact.0) matches Err(f) ==> r is Err && reports_lower(r->Err_0, f),
            lower_source(artifact.0) matches Ok(l) ==> exists|t: TrueSchema|
                lowered_into(t, source.spec_identity(), imports@, resolved_imports@, l) && #[trigger] checked(
                    t,
                    module_schema(r),
                ),
            r matches Ok(m) ==> m.source == source && m.artifact == artifact && m.summary.path@
                == source.spec_path() && m.summary.root_blocks@ == root_blocks(roots@),
    {
        let lowered = artifact.source().to_true_schema(source.identity().clone(), imports, resolved_imports);
        let true_schema = match lowered {
            Ok(t) => t,
            Err(e) => { return Err(e); },
        };
        let summary = SchemaSourceSummary::from_module_source(source.path(), source.source(), roots);
        Ok(SchemaEnvironmentModule { source, artifact, true_schema, summary })
    }
}

/// The modules an environment loaded, in manifest order.
#[derive(Debug)]
pub struct SchemaEnvironmentResult {
    pub modules: Vec<SchemaEnvironmentModule>,
}

impl SchemaEnvironmentResult {
    pub fn new(modules: Vec<SchemaEnvironmentModule>) -> (r: Self)
        ensures
            r.modules == modules,
    {
        SchemaEnvironmentResult { modules }
    }

    pub fn modules(&self) -> (r: &[SchemaEnvironmentModule])
        ensures
            r@ == self.modules@,
    {
        self.modules.as_slice()
    }
}

} // verus!
