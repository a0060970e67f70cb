//! Schema packages: where a crate's schema modules live, and the module
//! name each schema file stands for. Paths are `/`-separated text.
use vstd::prelude::*;

use crate::error::SchemaError;
use crate::name::{Name, SchemaIdentity};
use crate::text::push_char;

verus! {

pub open spec fn schema_word() -> Seq<char> {
    seq!['s', 'c', 'h', 'e', 'm', 'a']
}

pub open spec fn schema_suffix() -> Seq<char> {
    seq!['.', 's', 'c', 'h', 'e', 'm', 'a']
}

/// A path joined with another as a path join does it: an absolute path
/// (one that starts with `/`) replaces the base; otherwise a `/` goes
/// between the two unless the base is empty or already ends with one.
pub open spec fn path_join(base: Seq<char>, piece: Seq<char>) -> Seq<char> {
    if piece.len() > 0 && piece[0] == '/' {
        piece
    } else if base.len() == 0 || base.last() == '/' {
        base + piece
    } else {
        base + seq!['/'] + piece
    }
}

/// `base` joined with `piece` (see `path_join`).
pub fn join_path(base: &str, piece: &str) -> (r: String)
    ensures
        r@ == path_join(base@, piece@),
{
    let piece_chars = crate::text::text_chars(piece);
    if piece_chars.len() > 0 && piece_chars[0] == '/' {
        return piece.to_owned();
    }
    let base_chars = crate::text::text_chars(base);
    let mut out = base.to_owned();
    if base_chars.len() > 0 && base_chars[base_chars.len() - 1] != '/' {
        push_char(&mut out, '/');
    }
    out.append(piece);
    out
}

/// The pieces of a path between `/` separators, empty pieces included.
pub open spec fn path_pieces(p: Seq<char>) -> Seq<Seq<char>>
    decreases p.len(),
{
    if p.len() == 0 {
        seq![Seq::<char>::empty()]
    } else {
        let prev = path_pieces(p.drop_last());
        if p.last() == '/' {
            prev.push(Seq::empty())
        } else {
            prev.update(prev.len() - 1, prev.last().push(p.last()))
        }
    }
}

/// A path always splits into at least one piece.
pub proof fn lemma_path_pieces_nonempty(p: Seq<char>)
    ensures
        path_pieces(p).len() > 0,
    decreases p.len(),
{
    if p.len() > 0 {
        lemma_path_pieces_nonempty(p.drop_last());
    }
}

/// A piece the path's components keep: not empty and not `.`.
pub open spec fn kept_piece(s: Seq<char>) -> bool {
    s.len() > 0 && s != seq!['.']
}

/// The normal components of a relative path, in order.
pub open spec fn kept_pieces(ps: Seq<Seq<char>>) -> Seq<Seq<char>>
    decreases ps.len(),
{
    if ps.len() == 0 {
        Seq::empty()
    } else if kept_piece(ps.last()) {
        kept_pieces(ps.drop_last()).push(ps.last())
    } else {
        kept_pieces(ps.drop_last())
    }
}

/// Pieces joined by `:`.
pub open spec fn colon_joined(ps: Seq<Seq<char>>) -> Seq<char>
    decreases ps.len(),
{
    if ps.len() == 0 {
        Seq::empty()
    } else if ps.len() == 1 {
        ps[0]
    } else {
        colon_joined(ps.drop_last()) + seq![':'] + ps.last()
    }
}

/// The module name a schema file under the schema directory stands for:
/// its components below the directory joined by `:`, the `.schema` suffix
/// dropped from the last. `None` when the path is not below the directory,
/// climbs with `..`, names no file, or the file is not a `.schema` file.
pub open spec fn module_name_of(directory: Seq<char>, path: Seq<char>) -> Option<Seq<char>> {
    let prefix = directory + seq!['/'];
    if !(path.len() >= prefix.len() && path.take(prefix.len() as int) == prefix) {
        None
    } else {
        let pieces = path_pieces(path.skip(prefix.len() as int));
        let kept = kept_pieces(pieces);
        if exists|k: int| 0 <= k < pieces.len() && #[trigger] pieces[k] == seq!['.', '.'] {
            None
        } else if kept.len() == 0 {
            None
        } else {
            let last = kept.last();
            if !(last.len() >= 7 && last.skip(last.len() - 7) == schema_suffix()) {
                None
            } else {
                Some(colon_joined(kept.drop_last().push(last.take(last.len() - 7))))
            }
        }
    }
}

/// A module name written as a path: each `:` becomes `/`.
pub open spec fn colon_as_slash(m: Seq<char>) -> Seq<char> {
    m.map_values(|c: char| if c == ':' { '/' } else { c })
}

/// A module name whose `:`-separated segments are each a normal path
/// component: not empty, free of `/`, and neither `.` nor `..`.
pub open spec fn module_segments_ok(m: Seq<char>) -> bool {
    let pieces = path_pieces(colon_as_slash(m));
    &&& !m.contains('/')
    &&& m.len() > 0 && m[0] != ':'
    &&& forall|k: int| 0 <= k < pieces.len() ==> kept_piece(#[trigger] pieces[k]) && pieces[k] != seq!['.', '.']
}

/// Text free of `/` only lengthens a path's last piece.
proof fn lemma_path_pieces_extend(p: Seq<char>, c: Seq<char>)
    requires
        !c.contains('/'),
    ensures
        path_pieces(p + c) == path_pieces(p).update(path_pieces(p).len() - 1, path_pieces(p).last() + c),
    decreases c.len(),
{
    lemma_path_pieces_nonempty(p);
    if c.len() == 0 {
        assert(p + c =~= p);
        assert(path_pieces(p).last() + c =~= path_pieces(p).last());
        assert(path_pieces(p).update(path_pieces(p).len() - 1, path_pieces(p).last()) =~= path_pieces(p));
    } else {
        let c0 = c.drop_last();
        assert(!c0.contains('/')) by {
            if c0.contains('/') {
                let i = choose|i: int| 0 <= i < c0.len() && c0[i] == '/';
                assert(c[i] == '/');
            }
        }
        lemma_path_pieces_extend(p, c0);
        assert((p + c).drop_last() =~= p + c0);
        assert((p + c).last() == c.last());
        assert(c.last() != '/') by {
            assert(c[c.len() - 1] == c.last());
        }
        let q = path_pieces(p);
        assert(q.last() + c =~= (q.last() + c0).push(c.last()));
        assert(path_pieces(p + c) =~= q.update(q.len() - 1, q.last() + c));
    }
}

/// Lengthening the last piece lengthens the joined text alike.
proof fn lemma_colon_joined_push(ps: Seq<Seq<char>>, x: char)
    requires
        ps.len() > 0,
    ensures
        colon_joined(ps.update(ps.len() - 1, ps.last().push(x))) == colon_joined(ps).push(x),
{
    let qs = ps.update(ps.len() - 1, ps.last().push(x));
    if ps.len() > 1 {
        assert(qs.drop_last() =~= ps.drop_last());
    }
}

/// Joining a module's path pieces with `:` gives the module name back.
proof fn lemma_colon_joined_pieces(m: Seq<char>)
    requires
        !m.contains('/'),
    ensures
        colon_joined(path_pieces(colon_as_slash(m))) == m,
    decreases m.len(),
{
    if m.len() == 0 {
        assert(colon_as_slash(m) =~= Seq::<char>::empty());
    } else {
        let m0 = m.drop_last();
        assert(!m0.contains('/')) by {
            if m0.contains('/') {
                let i = choose|i: int| 0 <= i < m0.len() && m0[i] == '/';
                assert(m[i] == '/');
            }
        }
        lemma_colon_joined_pieces(m0);
        let x = m.last();
        assert(colon_as_slash(m).drop_last() =~= colon_as_slash(m0));
        assert(colon_as_slash(m).last() == if x == ':' { '/' } else { x });
        let q = path_pieces(colon_as_slash(m0));
        lemma_path_pieces_nonempty(colon_as_slash(m0));
        if x == ':' {
            assert(path_pieces(colon_as_slash(m)) == q.push(Seq::<char>::empty()));
            assert(q.push(Seq::<char>::empty()).drop_last() =~= q);
            assert(m =~= m0 + seq![':'] + Seq::<char>::empty());
        } else {
            assert(x != '/') by {
                assert(m[m.len() - 1] == x);
            }
            lemma_colon_joined_push(q, x);
            assert(m =~= m0.push(x));
        }
    }
}

/// Pieces that are all kept are kept whole.
proof fn lemma_kept_all(ps: Seq<Seq<char>>)
    requires
        forall|k: int| 0 <= k < ps.len() ==> kept_piece(#[trigger] ps[k]),
    ensures
        kept_pieces(ps) == ps,
    decreases ps.len(),
{
    if ps.len() > 0 {
        lemma_kept_all(ps.drop_last());
        assert(kept_piece(ps[ps.len() - 1]));
        assert(ps.drop_last().push(ps.last()) =~= ps);
    }
}

/// A crate's schema package: its root directory, crate name, and version.
#[derive(Debug)]
pub struct SchemaPackage {
    root: String,
    crate_name: Name,
    version: String,
}

impl SchemaPackage {
    pub closed spec fn spec_root(&self) -> Seq<char> {
        self.root@
    }

    pub closed spec fn spec_crate_name(&self) -> Name {
        self.crate_name
    }

    pub closed spec fn spec_version(&self) -> Seq<char> {
        self.version@
    }

    pub open spec fn spec_schema_directory(&self) -> Seq<char> {
        path_join(self.spec_root(), schema_word())
    }

    pub fn new(root: &str, crate_name: &str, version: &str) -> (r: Self)
        ensures
            r.spec_root() == root@,
            r.spec_crate_name()@ == crate_name@,
            r.spec_version() == version@,
    {
        SchemaPackage { root: root.to_owned(), crate_name: Name::new(crate_name), version: version.to_owned() }
    }

    pub fn root(&self) -> (r: &str)
        ensures
            r@ == self.spec_root(),
    {
        self.root.as_str()
    }

    pub fn crate_name(&self) -> (r: &Name)
        ensures
            *r == self.spec_crate_name(),
    {
        &self.crate_name
    }

    pub fn version(&self) -> (r: &str)
        ensures
            r@ == self.spec_version(),
    {
        self.version.as_str()
    }

    /// The package root joined with `schema`.
    pub fn schema_directory(&self) -> (r: String)
        ensures
            r@ == self.spec_schema_directory(),
    {
        proof {
            reveal_strlit("schema");
        }
        join_path(self.root.as_str(), "schema")
    }

    /// The schema directory joined with `lib.schema`.
    pub fn lib_schema_path(&self) -> (r: String)
        ensures
            r@ == path_join(self.spec_schema_directory(), seq!['l', 'i', 'b'] + schema_suffix()),
    {
        proof {
            reveal_strlit("lib.schema");
            assert("lib.schema"@ =~= seq!['l', 'i', 'b'] + schema_suffix());
        }
        let directory = self.schema_directory();
        join_path(directory.as_str(), "lib.schema")
    }

    /// The schema directory joined with the module name, `:` written as
    /// `/`, and the `.schema` suffix.
    pub fn module_schema_path(&self, module: &Name) -> (r: String)
        ensures
            r@ == path_join(self.spec_schema_directory(), colon_as_slash(module@) + schema_suffix()),
    {
        proof {
            reveal_strlit(".schema");
        }
        let mut out = String::new();
        let ghost start = out@;
        let chars = crate::text::text_chars(module.as_str());
        let mut i: usize = 0;
        while i < chars.len()
            invariant
                i <= chars@.len(),
                chars@ == module@,
                out@ == start + chars@.take(i as int).map_values(
                    |c: char| if c == ':' { '/' } else { c },
                ),
            decreases chars@.len() - i,
        {
            let c = chars[i];
            push_char(&mut out, if c == ':' { '/' } else { c });
            proof {
                assert(chars@.take(i + 1).map_values(|c: char| if c == ':' { '/' } else { c })
                    =~= chars@.take(i as int).map_values(|c: char| if c == ':' { '/' } else { c }).push(
                    if c == ':' { '/' } else { c },
                ));
            }
            i = i + 1;
        }
        proof {
            assert(chars@.take(i as int) =~= chars@);
        }
        out.append(".schema");
        assert(out@ =~= colon_as_slash(module@) + schema_suffix());
        let directory = self.schema_directory();
        join_path(directory.as_str(), out.as_str())
    }

    /// The identity of one of the package's modules: `<crate>:<module>` at
    /// the package's version.
    pub fn module_identity(&self, module_name: &Name) -> (r: SchemaIdentity)
        ensures
            r.spec_component()@ == self.spec_crate_name()@ + seq![':'] + module_name@,
            r.spec_version() == self.spec_version(),
    {
        let mut component = self.crate_name.as_str().to_owned();
        push_char(&mut component, ':');
        component.append(module_name.as_str());
        SchemaIdentity::new(component.as_str(), self.version.as_str())
    }

    /// The module name a schema file stands for; a path that is not a
    /// `.schema` file below the schema directory is malformed.
    pub fn module_name_from_schema_path(&self, path: &str) -> (r: Result<Name, SchemaError>)
        ensures
            match module_name_of(self.spec_schema_directory(), path@) {
                Some(n) => r is Ok && r->Ok_0@ == n,
                None => r matches Err(SchemaError::MalformedSchemaPath { path: p }) && p@ == path@,
            },
    {
        let directory = self.schema_directory();
        let prefix_chars = crate::text::text_chars(directory.as_str());
        let chars = crate::text::text_chars(path);
        let ghost prefix = directory@ + seq!['/'];
        let n = prefix_chars.len();
        if chars.len() <= n {
            return Err(SchemaError::MalformedSchemaPath { path: path.to_owned() });
        }
        let mut i: usize = 0;
        while i < n
            invariant
                i <= n,
                n == prefix_chars@.len(),
                prefix_chars@ == directory@,
                directory@ == self.spec_schema_directory(),
                prefix == directory@ + seq!['/'],
                chars@ == path@,
                chars@.len() >= n + 1,
                forall|k: int| 0 <= k < i ==> chars@[k] == prefix_chars@[k],
            decreases n - i,
        {
            if chars[i] != prefix_chars[i] {
                proof {
                    assert(path@.take(prefix.len() as int)[i as int] != prefix[i as int]);
                }
                return Err(SchemaError::MalformedSchemaPath { path: path.to_owned() });
            }
            i = i + 1;
        }
        if chars[n] != '/' {
            proof {
                assert(path@.take(prefix.len() as int)[n as int] != prefix[n as int]);
            }
            return Err(SchemaError::MalformedSchemaPath { path: path.to_owned() });
        }
        proof {
            assert(path@.take(prefix.len() as int) =~= prefix);
        }
        // Split the relative part into pieces, keeping the normal ones.
        let ghost rel = path@.skip(prefix.len() as int);
        let mut kept: Vec<String> = Vec::new();
        let mut current = String::new();
        let mut climbs = false;
        let mut j: usize = n + 1;
        proof {
            assert(rel.take(0) =~= Seq::<char>::empty());
            assert(path_pieces(rel.take(0)) == seq![Seq::<char>::empty()]);
        }
        while j < chars.len()
            invariant
                n + 1 <= j <= chars@.len(),
                chars@ == path@,
                rel == path@.skip(n + 1),
                path_pieces(rel.take(j - n - 1)).len() > 0,
                current@ == path_pieces(rel.take(j - n - 1)).last(),
                kept@.map_values(|s: String| s@) == kept_pieces(
                    path_pieces(rel.take(j - n - 1)).drop_last(),
                ),
                climbs == exists|k: int|
                    0 <= k < path_pieces(rel.take(j - n - 1)).len() - 1 && #[trigger] path_pieces(
                        rel.take(j - n - 1),
                    )[k] == seq!['.', '.'],
            decreases chars@.len() - j,
        {
            let c = chars[j];
            let ghost before = path_pieces(rel.take(j - n - 1));
            proof {
                assert(rel.take(j - n) =~= rel.take(j - n - 1).push(c));
                assert(rel.take(j - n).drop_last() =~= rel.take(j - n - 1));
            }
            if c == '/' {
                proof {
                    reveal_strlit(".");
                    reveal_strlit("..");
                }
                let piece = current;
                let is_dot = crate::text::str_equal(piece.as_str(), ".");
                let is_climb = crate::text::str_equal(piece.as_str(), "..");
                let ghost kept_before = kept@.map_values(|s: String| s@);
                if is_climb {
                    climbs = true;
                }
                if piece.as_str().unicode_len() > 0 && !is_dot {
                    kept.push(piece);
                    proof {
                        assert(kept@.map_values(|s: String| s@) =~= kept_before.push(before.last()));
                    }
                }
                current = String::new();
                proof {
                    let after = path_pieces(rel.take(j - n));
                    assert(after == before.push(Seq::<char>::empty()));
                    assert(after.drop_last() =~= before);
                    assert(before =~= before.drop_last().push(before.last()));
                    assert(kept_pieces(before) == if kept_piece(before.last()) {
                        kept_pieces(before.drop_last()).push(before.last())
                    } else {
                        kept_pieces(before.drop_last())
                    });
                    assert("."@ =~= seq!['.']);
                    assert(".."@ =~= seq!['.', '.']);
                    if climbs {
                        if !is_climb {
                            let k = choose|k: int|
                                0 <= k < before.len() - 1 && #[trigger] before[k] == seq!['.', '.'];
                            assert(after[k] == before[k]);
                        } else {
                            assert(after[before.len() - 1] == seq!['.', '.']);
                        }
                    } else {
                        assert forall|k: int| 0 <= k < after.len() - 1 implies #[trigger] after[k]
                            != seq!['.', '.'] by {
                            if k < before.len() - 1 {
                                assert(after[k] == before[k]);
                            }
                        }
                    }
                }
            } else {
                push_char(&mut current, c);
                proof {
                    let after = path_pieces(rel.take(j - n));
                    assert(after.len() == before.len());
                    assert(after.drop_last() =~= before.drop_last());
                    assert forall|k: int| 0 <= k < after.len() - 1 implies #[trigger] after[k]
                        == before[k] by {}
                    if climbs {
                        let k = choose|k: int|
                            0 <= k < before.len() - 1 && #[trigger] before[k] == seq!['.', '.'];
                        assert(after[k] == before[k]);
                    } else {
                        assert forall|k: int| 0 <= k < after.len() - 1 implies #[trigger] after[k]
                            != seq!['.', '.'] by {
                            assert(after[k] == before[k]);
                        }
                    }
                }
            }
            j = j + 1;
        }
        proof {
            assert(rel.take(j - n - 1) =~= rel);
        }
        let ghost pieces = path_pieces(rel);
        // The last piece, after the final separator.
        proof {
            reveal_strlit(".");
            reveal_strlit("..");
            assert("."@ =~= seq!['.']);
            assert(".."@ =~= seq!['.', '.']);
            assert(pieces =~= pieces.drop_last().push(pieces.last()));
        }
        let is_dot = crate::text::str_equal(current.as_str(), ".");
        let is_climb = crate::text::str_equal(current.as_str(), "..");
        if climbs || is_climb {
            proof {
                if !climbs {
                    assert(pieces[pieces.len() - 1] == seq!['.', '.']);
                }
            }
            return Err(SchemaError::MalformedSchemaPath { path: path.to_owned() });
        }
        if current.as_str().unicode_len() > 0 && !is_dot {
            let ghost kept_before = kept@.map_values(|s: String| s@);
            kept.push(current);
            proof {
                assert(kept@.map_values(|s: String| s@) =~= kept_before.push(pieces.last()));
            }
        }
        proof {
            assert(kept@.map_values(|s: String| s@) == kept_pieces(pieces));
            assert forall|k: int| 0 <= k < pieces.len() implies #[trigger] pieces[k] != seq!['.', '.'] by {
                if k == pieces.len() - 1 {
                } else {
                }
            }
        }
        if kept.len() == 0 {
            return Err(SchemaError::MalformedSchemaPath { path: path.to_owned() });
        }
        let last_index = kept.len() - 1;
        let last_chars = crate::text::text_chars(kept[last_index].as_str());
        let m = last_chars.len();
        proof {
            reveal_strlit(".schema");
        }
        let suffix = crate::text::text_chars(".schema");
        proof {
            assert(suffix@ =~= schema_suffix());
        }
        if m < 7 {
            return Err(SchemaError::MalformedSchemaPath { path: path.to_owned() });
        }
        let ghost expected = module_name_of(self.spec_schema_directory(), path@);
        proof {
            assert(expected is None <==> !(last_chars@.skip(m - 7) == schema_suffix()));
        }
        let mut t: usize = 0;
        while t < 7
            invariant
                t <= 7,
                m >= 7,
                expected == module_name_of(self.spec_schema_directory(), path@),
                expected is None <==> !(last_chars@.skip(m - 7) == schema_suffix()),
                m == last_chars@.len(),
                suffix@ == schema_suffix(),
                forall|k: int| 0 <= k < t ==> last_chars@[m - 7 + k] == suffix@[k],
            decreases 7 - t,
        {
            if last_chars[m - 7 + t] != suffix[t] {
                proof {
                    assert(last_chars@.skip(m - 7)[t as int] != schema_suffix()[t as int]);
                }
                return Err(SchemaError::MalformedSchemaPath { path: path.to_owned() });
            }
            t = t + 1;
        }
        proof {
            assert(last_chars@.skip(m - 7) =~= schema_suffix());
        }
        let module_file = crate::text::chars_to_string(vstd::slice::slice_subrange(last_chars.as_slice(), 0, m - 7));
        let mut joined = String::new();
        let mut q: usize = 0;
        let ghost segments = kept@.map_values(|s: String| s@).drop_last().push(last_chars@.take(m - 7));
        while q < kept.len()
            invariant
                q <= kept@.len(),
                kept@.len() > 0,
                last_index == kept@.len() - 1,
                module_file@ == last_chars@.take(m - 7),
                segments == kept@.map_values(|s: String| s@).drop_last().push(last_chars@.take(m - 7)),
                joined@ == colon_joined(segments.take(q as int)),
            decreases kept@.len() - q,
        {
            if q > 0 {
                push_char(&mut joined, ':');
            }
            let piece: &str = if q == last_index {
                module_file.as_str()
            } else {
                kept[q].as_str()
            };
            joined.append(piece);
            proof {
                let u = segments.take(q + 1);
                assert(u.drop_last() =~= segments.take(q as int));
                assert(piece@ == segments[q as int]);
                if q == 0 {
                    assert(segments.take(0) =~= Seq::<Seq<char>>::empty());
                    assert(colon_joined(u) == u[0]);
                } else {
                    assert(colon_joined(u) == colon_joined(u.drop_last()) + seq![':'] + u.last());
                }
                assert(joined@ =~= colon_joined(u));
            }
            q = q + 1;
        }
        proof {
            assert(segments.take(q as int) =~= segments);
            assert(kept@.map_values(|s: String| s@).last() == last_chars@);
        }
        Ok(Name::from_string(joined))
    }
}

/// One loaded schema module: its identity, path, and source text.
#[derive(Debug)]
pub struct SchemaModuleSource {
    identity: SchemaIdentity,
    path: String,
    source: String,
}

impl SchemaModuleSource {
    pub closed spec fn spec_identity(&self) -> SchemaIdentity {
        self.identity
    }

    pub closed spec fn spec_path(&self) -> Seq<char> {
        self.path@
    }

    pub closed spec fn spec_source(&self) -> Seq<char> {
        self.source@
    }

    pub fn new(identity: SchemaIdentity, path: String, source: String) -> (r: Self)
        ensures
            r.spec_identity() == identity,
            r.spec_path() == path@,
            r.spec_source() == source@,
    {
        SchemaModuleSource { identity, path, source }
    }

    pub fn identity(&self) -> (r: &SchemaIdentity)
        ensures
            *r == self.spec_identity(),
    {
        &self.identity
    }

    pub fn path(&self) -> (r: &str)
        ensures
            r@ == self.spec_path(),
    {
        self.path.as_str()
    }

    pub fn source(&self) -> (r: &str)
        ensures
            r@ == self.spec_source(),
    {
        self.source.as_str()
    }
}

/// Reading back the schema path of a module gives the module: for a
/// module whose segments are normal path components, the module name of
/// `module_schema_path(m)` is `m`.
pub proof fn lemma_module_path_reads_back(package: SchemaPackage, m: Seq<char>)
    requires
        module_segments_ok(m),
    ensures
        module_name_of(
            package.spec_schema_directory(),
            path_join(package.spec_schema_directory(), colon_as_slash(m) + schema_suffix()),
        ) == Some(m),
{
    let dir = package.spec_schema_directory();
    let q = path_pieces(colon_as_slash(m));
    let rel = colon_as_slash(m) + schema_suffix();
    lemma_path_pieces_nonempty(colon_as_slash(m));
    // The directory ends in `schema`, so a separator goes between.
    assert(dir.len() > 0 && dir.last() != '/') by {
        let root = package.spec_root();
        if root.len() == 0 || root.last() == '/' {
            assert(dir =~= root + schema_word());
        } else {
            assert(dir =~= root + seq!['/'] + schema_word());
        }
        assert(dir.last() == 'a');
    }
    assert(rel[0] == m[0]);
    let path = path_join(dir, rel);
    assert(path =~= dir + seq!['/'] + rel);
    let prefix = dir + seq!['/'];
    assert(path.take(prefix.len() as int) =~= prefix);
    assert(path.skip(prefix.len() as int) =~= rel);
    assert(!schema_suffix().contains('/')) by {
        if schema_suffix().contains('/') {
            let i = choose|i: int| 0 <= i < schema_suffix().len() && schema_suffix()[i] == '/';
        }
    }
    lemma_path_pieces_extend(colon_as_slash(m), schema_suffix());
    let pieces = path_pieces(rel);
    let last = q.last() + schema_suffix();
    assert(pieces == q.update(q.len() - 1, last));
    assert forall|k: int| 0 <= k < pieces.len() implies kept_piece(#[trigger] pieces[k]) && pieces[k] != seq!['.', '.'] by {
        if k < q.len() - 1 {
            assert(pieces[k] == q[k]);
            assert(kept_piece(q[k]) && q[k] != seq!['.', '.']);
        } else {
            assert(pieces[k] == last);
            assert(last.len() >= 7);
        }
    }
    assert(!(exists|k: int| 0 <= k < pieces.len() && #[trigger] pieces[k] == seq!['.', '.']));
    lemma_kept_all(pieces);
    assert(last.skip(last.len() - 7) =~= schema_suffix());
    assert(last.take(last.len() - 7) =~= q.last());
    assert(pieces.drop_last().push(q.last()) =~= q);
    lemma_colon_joined_pieces(m);
}

} // verus!
