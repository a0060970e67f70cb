//! Schema names, table names, schema identities, and symbol paths.
use vstd::prelude::*;

use crate::text::{char_to_lower, is_upper, lower, push_char};

verus! {

// ---------------------------------------------------------------- specs
/// The first `:` at or after `i` (`s.len()` if none).
pub open spec fn first_colon_from(s: Seq<char>, i: int) -> int
    decreases s.len() - i,
{
    if i < 0 || i >= s.len() {
        s.len() as int
    } else if s[i] == ':' {
        i
    } else {
        first_colon_from(s, i + 1)
    }
}

/// The first colon from a position is the first one there, or the end.
pub proof fn lemma_first_colon(s: Seq<char>, i: int)
    requires
        0 <= i <= s.len(),
    ensures
        i <= first_colon_from(s, i) <= s.len(),
        forall|k: int| i <= k < first_colon_from(s, i) ==> #[trigger] s[k] != ':',
        first_colon_from(s, i) < s.len() ==> s[first_colon_from(s, i)] == ':',
    decreases s.len() - i,
{
    if i < s.len() && s[i] != ':' {
        lemma_first_colon(s, i + 1);
    }
}

/// The `:`-separated segments of a name, in order. A name with no `:` is one
/// segment; an empty segment stays an empty segment.
pub open spec fn segments_of(s: Seq<char>) -> Seq<Seq<char>>
    decreases s.len(),
{
    let k = first_colon_from(s, 0);
    if k >= s.len() {
        seq![s]
    } else {
        proof {
            lemma_first_colon(s, 0);
        }
        seq![s.take(k)] + segments_of(s.skip(k + 1))
    }
}

/// Whether the name carries a namespace separator.
pub open spec fn has_colon(s: Seq<char>) -> bool {
    exists|i: int| 0 <= i < s.len() && s[i] == ':'
}

/// The last `:` before position `n` (`-1` if none).
pub open spec fn last_colon_before(s: Seq<char>, n: int) -> int
    decreases n,
{
    if n <= 0 {
        -1
    } else if s[n - 1] == ':' {
        n - 1
    } else {
        last_colon_before(s, n - 1)
    }
}

/// The last colon before a position is the last one there, or none.
pub proof fn lemma_last_colon(s: Seq<char>, n: int)
    requires
        0 <= n <= s.len(),
    ensures
        -1 <= last_colon_before(s, n) < n,
        forall|k: int| last_colon_before(s, n) < k < n ==> #[trigger] s[k] != ':',
        last_colon_before(s, n) >= 0 ==> s[last_colon_before(s, n)] == ':',
    decreases n,
{
    if n > 0 && s[n - 1] != ':' {
        lemma_last_colon(s, n - 1);
    }
}

/// The local part of a name: everything after its last `:`.
pub open spec fn local_part_of(s: Seq<char>) -> Seq<char> {
    s.skip(last_colon_before(s, s.len() as int) + 1)
}

/// A name under an optional namespace: an unqualified name gains the
/// `namespace:` prefix; a qualified name, or no namespace, stays as it is.
pub open spec fn qualified(s: Seq<char>, namespace: Option<Seq<char>>) -> Seq<char> {
    match namespace {
        Some(n) => if has_colon(s) {
            s
        } else {
            n + seq![':'] + s
        },
        None => s,
    }
}

/// Past the last colon, no colon before `k` but that one is the last.
proof fn lemma_last_colon_after(s: Seq<char>, c: int, k: int)
    requires
        0 <= c < k <= s.len(),
        s[c] == ':',
        forall|i: int| c < i < s.len() ==> s[i] != ':',
    ensures
        last_colon_before(s, k) == c,
    decreases k,
{
    if k - 1 > c {
        lemma_last_colon_after(s, c, k - 1);
    }
}

/// Qualifying a name keeps its local part, and qualifying it again under
/// the same namespace changes nothing.
pub proof fn lemma_qualified_keeps_local_part(s: Seq<char>, namespace: Option<Seq<char>>)
    ensures
        local_part_of(qualified(s, namespace)) == local_part_of(s),
        qualified(qualified(s, namespace), namespace) == qualified(s, namespace),
{
    if namespace is Some && !has_colon(s) {
        let n = namespace.unwrap();
        let q = n + seq![':'] + s;
        let c = n.len() as int;
        assert(q[c] == ':');
        assert forall|i: int| c < i < q.len() implies q[i] != ':' by {
            assert(q[i] == s[i - c - 1]);
        }
        lemma_last_colon_after(q, c, q.len() as int);
        assert(q.skip(c + 1) =~= s);
        lemma_last_colon(s, s.len() as int);
        if last_colon_before(s, s.len() as int) >= 0 {
            assert(s[last_colon_before(s, s.len() as int)] == ':');
        }
        assert(s.skip(0) =~= s);
        assert(has_colon(q));
    }
}

/// The snake_case field-name rendering of one character at `index`.
pub open spec fn field_piece(s: Seq<char>, index: int) -> Seq<char> {
    if is_upper(s[index]) {
        if index > 0 {
            seq!['_', lower(s[index])]
        } else {
            seq![lower(s[index])]
        }
    } else if s[index] == '-' {
        seq!['_']
    } else {
        seq![s[index]]
    }
}

pub open spec fn field_prefix(s: Seq<char>, n: int) -> Seq<char>
    decreases n,
{
    if n <= 0 {
        Seq::empty()
    } else {
        field_prefix(s, n - 1) + field_piece(s, n - 1)
    }
}

/// The derived field name of a type name: its local part in snake_case, with
/// `-` turned into `_`.
pub open spec fn field_name_of(s: Seq<char>) -> Seq<char> {
    field_prefix(local_part_of(s), local_part_of(s).len() as int)
}

// ---------------------------------------------------------------- Name
/// A schema name: a declaration, field, variant, or namespace-qualified name
/// (`crate:module:Type`).
#[derive(Debug, Eq, Hash)]
pub struct Name(String);

impl View for Name {
    type V = Seq<char>;

    closed spec fn view(&self) -> Seq<char> {
        self.0@
    }
}

impl Clone for Name {
    fn clone(&self) -> (r: Self)
        ensures
            r == *self,
    {
        Name(self.0.clone())
    }
}

impl PartialEq for Name {
    fn eq(&self, other: &Self) -> (r: bool) {
        self.0 == other.0
    }
}

impl vstd::std_specs::cmp::PartialEqSpecImpl for Name {
    open spec fn obeys_eq_spec() -> bool {
        true
    }

    open spec fn eq_spec(&self, other: &Self) -> bool {
        self@ == other@
    }
}

impl Name {
    pub fn new(value: &str) -> (r: Self)
        ensures
            r@ == value@,
    {
        Name(value.to_owned())
    }

    /// A name holding the given string.
    pub fn from_string(value: String) -> (r: Self)
        ensures
            r@ == value@,
    {
        Name(value)
    }

    pub fn as_str(&self) -> (r: &str)
        ensures
            r@ == self@,
    {
        self.0.as_str()
    }

    /// The `:`-separated namespace segments, in order.
    pub fn namespace_segments(&self) -> (r: Vec<&str>)
        ensures
            r@.map_values(|x: &str| x@) == segments_of(self@),
    {
        let text = self.0.as_str();
        let n = text.unicode_len();
        let ghost s = self@;
        let mut segments: Vec<&str> = Vec::new();
        let mut start: usize = 0;
        let mut i: usize = 0;
        proof {
            assert(s.skip(0) =~= s);
            assert(segments@.map_values(|x: &str| x@) =~= Seq::<Seq<char>>::empty());
        }
        while i < n
            invariant
                n == s.len(),
                text@ == s,
                start <= i <= n,
                forall|k: int| start <= k < i ==> #[trigger] s[k] != ':',
                segments@.map_values(|x: &str| x@) + segments_of(s.skip(start as int))
                    == segments_of(s),
            decreases n - i,
        {
            let c = text.get_char(i);
            if c == ':' {
                let piece = text.substring_char(start, i);
                let ghost before = segments@.map_values(|x: &str| x@);
                proof {
                    let t = s.skip(start as int);
                    lemma_first_colon(t, 0);
                    assert forall|k: int| 0 <= k < i - start implies #[trigger] t[k] != ':' by {
                        assert(t[k] == s[start + k]);
                    }
                    assert(t[i - start] == ':');
                    assert(first_colon_from(t, 0) == i - start) by {
                        let f = first_colon_from(t, 0);
                        if f < i - start {
                            assert(t[f] == ':');
                        }
                    }
                    assert(t.take(i - start) =~= s.subrange(start as int, i as int));
                    assert(t.skip(i - start + 1) =~= s.skip(i + 1));
                }
                segments.push(piece);
                proof {
                    assert(segments@.map_values(|x: &str| x@) =~= before.push(piece@));
                    assert(segments@.map_values(|x: &str| x@) + segments_of(s.skip(i + 1))
                        =~= before + segments_of(s.skip(start as int)));
                }
                start = i + 1;
            }
            i = i + 1;
        }
        let last = text.substring_char(start, n);
        let ghost before = segments@.map_values(|x: &str| x@);
        proof {
            let t = s.skip(start as int);
            lemma_first_colon(t, 0);
            assert(first_colon_from(t, 0) == t.len()) by {
                let f = first_colon_from(t, 0);
                if f < t.len() {
                    assert(t[f] == s[start + f]);
                }
            }
            assert(t =~= s.subrange(start as int, n as int));
        }
        segments.push(last);
        proof {
            assert(segments@.map_values(|x: &str| x@) =~= before.push(last@));
        }
        segments
    }

    /// The local part: the last namespace segment.
    pub fn local_part(&self) -> (r: &str)
        ensures
            r@ == local_part_of(self@),
    {
        let text = self.0.as_str();
        let n = text.unicode_len();
        let mut i = n;
        proof {
            lemma_last_colon(self@, n as int);
        }
        while i > 0 && text.get_char(i - 1) != ':'
            invariant
                n == self@.len(),
                text@ == self@,
                i <= n,
                last_colon_before(self@, n as int) == last_colon_before(self@, i as int),
            decreases i,
        {
            i = i - 1;
        }
        text.substring_char(i, n)
    }

    /// Whether this name is namespace-qualified.
    pub fn has_namespace(&self) -> (r: bool)
        ensures
            r == has_colon(self@),
    {
        let text = self.0.as_str();
        let n = text.unicode_len();
        let mut i: usize = 0;
        while i < n
            invariant
                n == self@.len(),
                text@ == self@,
                i <= n,
                forall|k: int| 0 <= k < i ==> self@[k] != ':',
            decreases n - i,
        {
            if text.get_char(i) == ':' {
                return true;
            }
            i = i + 1;
        }
        false
    }

    /// This name under `namespace`: an unqualified name gains the
    /// `namespace:` prefix; a qualified name, or no namespace, leaves the name
    /// as it is.
    pub fn qualified_under(&self, namespace: Option<&Name>) -> (r: Self)
        ensures
            namespace is Some && !has_colon(self@) ==> r@ == namespace.unwrap()@ + seq![':']
                + self@,
            !(namespace is Some && !has_colon(self@)) ==> r == *self,
            r@ == qualified(self@, match namespace { Some(n) => Some(n@), None => None }),
    {
        match namespace {
            Some(namespace) => {
                if !self.has_namespace() {
                    let mut text = namespace.0.clone();
                    push_char(&mut text, ':');
                    text.append(self.0.as_str());
                    Name(text)
                } else {
                    self.clone()
                }
            },
            None => self.clone(),
        }
    }

    /// The derived field name: the local part in snake_case, `-` as `_`.
    pub fn field_name(&self) -> (r: String)
        ensures
            r@ == field_name_of(self@),
    {
        let local = self.local_part();
        let n = local.unicode_len();
        let mut output = String::new();
        let mut index: usize = 0;
        while index < n
            invariant
                n == local@.len(),
                local@ == local_part_of(self@),
                index <= n,
                output@ == field_prefix(local@, index as int),
            decreases n - index,
        {
            let character = local.get_char(index);
            if 'A' <= character && character <= 'Z' {
                if index > 0 {
                    push_char(&mut output, '_');
                }
                push_char(&mut output, char_to_lower(character));
            } else if character == '-' {
                push_char(&mut output, '_');
            } else {
                push_char(&mut output, character);
            }
            proof {
                assert(output@ =~= field_prefix(local@, index as int) + field_piece(
                    local@,
                    index as int,
                ));
            }
            index = index + 1;
        }
        output
    }
}

// ---------------------------------------------------------------- TableName
/// The current storage coordinate of a record family. A table name is not a
/// schema symbol: renaming the table moves only this coordinate.
#[derive(Debug, Eq)]
pub struct TableName(String);

impl View for TableName {
    type V = Seq<char>;

    closed spec fn view(&self) -> Seq<char> {
        self.0@
    }
}

impl Clone for TableName {
    fn clone(&self) -> (r: Self)
        ensures
            r == *self,
    {
        TableName(self.0.clone())
    }
}

impl PartialEq for TableName {
    fn eq(&self, other: &Self) -> (r: bool) {
        self.0 == other.0
    }
}

impl vstd::std_specs::cmp::PartialEqSpecImpl for TableName {
    open spec fn obeys_eq_spec() -> bool {
        true
    }

    open spec fn eq_spec(&self, other: &Self) -> bool {
        self@ == other@
    }
}

impl TableName {
    pub fn new(value: &str) -> (r: Self)
        ensures
            r@ == value@,
    {
        TableName(value.to_owned())
    }

    pub fn as_str(&self) -> (r: &str)
        ensures
            r@ == self@,
    {
        self.0.as_str()
    }
}

// ---------------------------------------------------------------- SchemaIdentity
/// The component name and version a schema is identified by.
#[derive(Debug, Eq)]
pub struct SchemaIdentity {
    component: Name,
    version: String,
}

impl Clone for SchemaIdentity {
    fn clone(&self) -> (r: Self)
        ensures
            r == *self,
    {
        SchemaIdentity { component: self.component.clone(), version: self.version.clone() }
    }
}

impl PartialEq for SchemaIdentity {
    fn eq(&self, other: &Self) -> (r: bool) {
        self.component == other.component && self.version == other.version
    }
}

impl vstd::std_specs::cmp::PartialEqSpecImpl for SchemaIdentity {
    open spec fn obeys_eq_spec() -> bool {
        true
    }

    open spec fn eq_spec(&self, other: &Self) -> bool {
        self.spec_component()@ == other.spec_component()@ && self.spec_version()
            == other.spec_version()
    }
}

impl SchemaIdentity {
    pub closed spec fn spec_component(&self) -> Name {
        self.component
    }

    pub closed spec fn spec_version(&self) -> Seq<char> {
        self.version@
    }

    pub fn new(component: &str, version: &str) -> (r: Self)
        ensures
            r.spec_component()@ == component@,
            r.spec_version() == version@,
    {
        SchemaIdentity { component: Name::new(component), version: version.to_owned() }
    }

    pub fn component(&self) -> (r: &Name)
        ensures
            *r == self.spec_component(),
    {
        &self.component
    }

    pub fn version(&self) -> (r: &str)
        ensures
            r@ == self.spec_version(),
    {
        self.version.as_str()
    }
}

/// Segments joined by `/`.
pub open spec fn joined_path(segments: Seq<Seq<char>>) -> Seq<char>
    decreases segments.len(),
{
    if segments.len() == 0 {
        Seq::empty()
    } else if segments.len() == 1 {
        segments[0]
    } else {
        joined_path(segments.drop_last()) + seq!['/'] + segments.last()
    }
}

// ---------------------------------------------------------------- SymbolPath
/// A path to a schema symbol: the owning component followed by local
/// segments (type, then field or variant).
#[derive(Debug, Eq, PartialEq, Hash)]
pub struct SymbolPath(Vec<Name>);

impl SymbolPath {
    pub closed spec fn spec_segments(&self) -> Seq<Name> {
        self.0@
    }

    pub fn new(segments: Vec<Name>) -> (r: Self)
        ensures
            r.spec_segments() == segments@,
    {
        SymbolPath(segments)
    }

    /// The identity's component followed by the given segments.
    pub fn from_identity_and_segments(identity: &SchemaIdentity, segments: Vec<Name>) -> (r: Self)
        ensures
            r.spec_segments() == seq![identity.spec_component()] + segments@,
    {
        let mut path_segments: Vec<Name> = Vec::new();
        path_segments.push(identity.component().clone());
        let mut rest = segments;
        path_segments.append(&mut rest);
        proof {
            assert(path_segments@ =~= seq![identity.spec_component()] + segments@);
        }
        SymbolPath(path_segments)
    }

    pub fn segments(&self) -> (r: &[Name])
        ensures
            r@ == self.spec_segments(),
    {
        self.0.as_slice()
    }

    /// The path as text: its segments joined by `/`.
    pub fn to_text(&self) -> (r: String)
        ensures
            r@ == joined_path(self.spec_segments().map_values(|n: Name| n@)),
    {
        let ghost views = self.0@.map_values(|n: Name| n@);
        let mut out = String::new();
        let mut i: usize = 0;
        while i < self.0.len()
            invariant
                i <= self.0@.len(),
                views == self.0@.map_values(|n: Name| n@),
                out@ == joined_path(views.take(i as int)),
            decreases self.0@.len() - i,
        {
            if i > 0 {
                push_char(&mut out, '/');
            }
            let ghost before = out@;
            let chars = crate::text::text_chars(self.0[i].as_str());
            let mut k: usize = 0;
            while k < chars.len()
                invariant
                    k <= chars@.len(),
                    chars@ == self.0@[i as int]@,
                    out@ == before + chars@.take(k as int),
                decreases chars@.len() - k,
            {
                push_char(&mut out, chars[k]);
                proof {
                    assert(chars@.take(k + 1) =~= chars@.take(k as int).push(chars@[k as int]));
                }
                k = k + 1;
            }
            proof {
                assert(chars@.take(k as int) =~= chars@);
                assert(views.take(i + 1).drop_last() =~= views.take(i as int));
                assert(views.take(i + 1).last() == views[i as int]);
            }
            i = i + 1;
        }
        proof {
            assert(views.take(i as int) =~= views);
        }
        out
    }

    /// The owning component: the first segment.
    pub fn component(&self) -> (r: Option<&Name>)
        ensures
            self.spec_segments().len() == 0 ==> r is None,
            self.spec_segments().len() > 0 ==> r == Some(&self.spec_segments()[0]),
    {
        if self.0.len() == 0 {
            None
        } else {
            Some(&self.0[0])
        }
    }

    /// Every segment after the component.
    pub fn local_segments(&self) -> (r: &[Name])
        ensures
            self.spec_segments().len() == 0 ==> r@.len() == 0,
            self.spec_segments().len() > 0 ==> r@ == self.spec_segments().skip(1),
    {
        if self.0.len() == 0 {
            &[]
        } else {
            let s = self.0.as_slice();
            vstd::slice::slice_subrange(s, 1, s.len())
        }
    }

    /// Whether the path's component is the identity's component.
    pub fn belongs_to(&self, identity: &SchemaIdentity) -> (r: bool)
        ensures
            r == (self.spec_segments().len() > 0 && self.spec_segments()[0]@
                == identity.spec_component()@),
    {
        match self.component() {
            Some(component) => *component == *identity.component(),
            None => false,
        }
    }

    pub fn type_path(identity: &SchemaIdentity, type_ident: &Name) -> (r: Self)
        ensures
            r.spec_segments() == seq![identity.spec_component(), *type_ident],
    {
        let mut segments = Vec::new();
        segments.push(type_ident.clone());
        let r = Self::from_identity_and_segments(identity, segments);
        assert(r.spec_segments() =~= seq![identity.spec_component(), *type_ident]);
        r
    }

    pub fn root_variant_path(identity: &SchemaIdentity, root_name: &Name, variant_name: &Name) -> (r: Self)
        ensures
            r.spec_segments() == seq![identity.spec_component(), *root_name, *variant_name],
    {
        Self::two_segment_path(identity, root_name, variant_name)
    }

    pub fn field_path(identity: &SchemaIdentity, type_ident: &Name, field_name: &Name) -> (r: Self)
        ensures
            r.spec_segments() == seq![identity.spec_component(), *type_ident, *field_name],
    {
        Self::two_segment_path(identity, type_ident, field_name)
    }

    pub fn enum_variant_path(identity: &SchemaIdentity, enum_name: &Name, variant_name: &Name) -> (r: Self)
        ensures
            r.spec_segments() == seq![identity.spec_component(), *enum_name, *variant_name],
    {
        Self::two_segment_path(identity, enum_name, variant_name)
    }

    fn two_segment_path(identity: &SchemaIdentity, first: &Name, second: &Name) -> (r: Self)
        ensures
            r.spec_segments() == seq![identity.spec_component(), *first, *second],
    {
        let mut segments = Vec::new();
        segments.push(first.clone());
        segments.push(second.clone());
        let r = Self::from_identity_and_segments(identity, segments);
        assert(r.spec_segments() =~= seq![identity.spec_component(), *first, *second]);
        r
    }
}

} // verus!
