//! The entity tree the indexer produces: messages, enums, services, methods
//! and fields, each carrying its symbol identity, declaration metadata and,
//! after the attachment pass, its accumulated backlinks.  The indexer walks
//! the descriptor tree once, in declaration order, assigning identities and
//! recording type-reference edges into the cross-reference graph.

use vstd::prelude::*;
use crate::descriptor::{
    loc_eqv, opt_str_eqv, EnumDescriptor, EnumValueDescriptor, FieldDescriptor, FieldKind,
    FileDescriptor, Location, MessageDescriptor, MethodDescriptor, ServiceDescriptor,
};
use crate::error::PreprocessError;
use crate::graph::{push_edge_spec, SymbolUsages, UsageEntryView};
use crate::links::{
    entity_fqsl, from_fqsl_spec, Backlink, Backlinks, BacklinkView, SymbolLink,
    SymbolLinkView,
};
use crate::strutil::{
    dec_str, join_strings, join_with, lemma_filter_step, string_views, usize_to_dec,
};
use crate::strutil;

verus! {

// Structural-path tags of the descriptor encoding: which child list of a
// file or message an element sits in.
pub const SERVICE_METHOD_TAG: i32 = 2;

pub const MESSAGE_FIELD_TAG: i32 = 2;

pub const MESSAGE_ONEOF_TAG: i32 = 8;

pub const MESSAGE_TYPE_TAG: i32 = 4;

pub const ENUM_TYPE_TAG: i32 = 5;

pub const SERVICE_TAG: i32 = 6;

/// The declared type of a rendered field: a reference to another symbol, a
/// scalar, or not yet determinable from the descriptor.
#[derive(Debug)]
pub enum FieldType {
    Symbol(SymbolLink),
    Primitive(FieldKind),
    Unimplemented,
}

// ---------------------------------------------------------------------------
// Source locations
// ---------------------------------------------------------------------------

/// The first location record with the given structural path, if any.
pub open spec fn find_location(locs: Seq<Location>, path: Seq<i32>) -> Option<int>
    decreases locs.len(),
{
    if locs.len() == 0 {
        None
    } else if locs[0].path@ == path {
        Some(0int)
    } else {
        match find_location(locs.drop_first(), path) {
            Some(i) => Some(i + 1),
            None => None,
        }
    }
}

pub proof fn lemma_find_location(locs: Seq<Location>, path: Seq<i32>)
    ensures
        match find_location(locs, path) {
            Some(i) => 0 <= i < locs.len() && locs[i].path@ == path && forall|j: int|
                0 <= j < i ==> locs[j].path@ != path,
            None => forall|j: int| 0 <= j < locs.len() ==> locs[j].path@ != path,
        },
    decreases locs.len(),
{
    if locs.len() == 0 {
    } else if locs[0].path@ == path {
    } else {
        lemma_find_location(locs.drop_first(), path);
        match find_location(locs.drop_first(), path) {
            Some(i) => {
                assert(locs.drop_first()[i] == locs[i + 1]);
                assert forall|j: int| 0 <= j < i + 1 implies locs[j].path@ != path by {
                    if j > 0 {
                        assert(locs.drop_first()[j - 1] == locs[j]);
                    }
                }
            },
            None => {
                assert forall|j: int| 0 <= j < locs.len() implies locs[j].path@ != path by {
                    if j > 0 {
                        assert(locs.drop_first()[j - 1] == locs[j]);
                    }
                }
            },
        }
    }
}

pub proof fn lemma_find_location_unique(locs: Seq<Location>, path: Seq<i32>, i: int)
    requires
        0 <= i < locs.len(),
        locs[i].path@ == path,
        forall|j: int| 0 <= j < i ==> locs[j].path@ != path,
    ensures
        find_location(locs, path) == Some(i),
{
    lemma_find_location(locs, path);
    match find_location(locs, path) {
        Some(m) => {
            if m < i {
                assert(locs[m].path@ != path);
            } else if m > i {
                assert(locs[i].path@ != path);
            }
        },
        None => {
            assert(locs[i].path@ != path);
        },
    }
}

/// What the location lookup for `path` in `file` yields, compared against an
/// optional record `r`.
pub open spec fn meta_matches(r: Option<Location>, file: &FileDescriptor, path: Seq<i32>) -> bool {
    match file.source_code_info {
        None => r is None,
        Some(locs) => match find_location(locs@, path) {
            None => r is None,
            Some(i) => r is Some && loc_eqv(r->Some_0, locs@[i]),
        },
    }
}

/// Component-for-component equality of two path vectors.
fn i32_vec_eq(a: &Vec<i32>, b: &Vec<i32>) -> (r: bool)
    ensures
        r == (a@ == b@),
{
    if a.len() != b.len() {
        return false;
    }
    let mut i: usize = 0;
    while i < a.len()
        invariant
            a@.len() == b@.len(),
            0 <= i <= a@.len(),
            forall|j: int| 0 <= j < i ==> a@[j] == b@[j],
        decreases a@.len() - i,
    {
        if a[i] != b[i] {
            return false;
        }
        i = i + 1;
    }
    proof {
        assert(a@ =~= b@);
    }
    true
}

/// Look up the source-location record for the element at the given
/// structural path, as the descriptor's source-code info recorded it.
pub fn read_source_code_info(descriptor: &FileDescriptor, path: &Vec<i32>) -> (r: Option<
    Location,
>)
    ensures
        meta_matches(r, descriptor, path@),
{
    match &descriptor.source_code_info {
        Some(locs) => {
            let n = locs.len();
            let mut i: usize = 0;
            while i < n
                invariant
                    descriptor.source_code_info is Some,
                    descriptor.source_code_info->Some_0 == *locs,
                    n == locs@.len(),
                    0 <= i <= n,
                    forall|j: int| 0 <= j < i ==> locs@[j].path@ != path@,
                decreases n - i,
            {
                if i32_vec_eq(&locs[i].path, path) {
                    proof {
                        lemma_find_location_unique(locs@, path@, i as int);
                    }
                    let found = locs[i].duplicate();
                    proof {
                        assert(loc_eqv(found, locs@[i as int]));
                        assert(descriptor.source_code_info->Some_0 == *locs);
                    }
                    return Some(found);
                }
                i = i + 1;
            }
            proof {
                lemma_find_location(locs@, path@);
                if let Some(k) = find_location(locs@, path@) {
                    assert(locs@[k].path@ != path@);
                }
            }
            None
        },
        None => None,
    }
}

/// A source span is well formed when it has four components (start line and
/// column, end line and column) or three (one line only), with line numbers
/// that a one-based display can hold.
pub open spec fn location_span_wf(span: Seq<i32>) -> bool {
    ||| (span.len() == 4 && 0 <= span[0] < i32::MAX && 0 <= span[2] < i32::MAX)
    ||| (span.len() == 3 && 0 <= span[0] < i32::MAX)
}

/// Where a declaration sits in its source file, one-based.
#[derive(Debug)]
pub struct Source {
    pub start_line: i32,
    pub end_line: i32,
    pub start_column: i32,
    pub end_column: i32,
    pub file_path: String,
}

/// The link target of a source span: the file path, then `#L<start>` for a
/// one-line span or `#L<start>-L<end>` otherwise.
pub open spec fn source_href_of(s: &Source) -> Seq<char> {
    if s.end_line == s.start_line {
        s.file_path@ + "#"@ + "L"@ + dec_str(s.start_line as nat)
    } else {
        s.file_path@ + "#"@ + "L"@ + dec_str(s.start_line as nat) + "-L"@ + dec_str(
            s.end_line as nat,
        )
    }
}

impl Source {
    /// Decode a location's span into a one-based source range; a span that
    /// is not three or four components, or whose line numbers cannot be
    /// displayed, is a malformed encoding and fatal.
    pub fn from_location(location: &Location, file_path: &str) -> (r: Result<
        Source,
        PreprocessError,
    >)
        ensures
            match r {
                Ok(s) => location_span_wf(location.span@) && s.file_path@ == file_path@
                    && ({
                    let span = location.span@;
                    if span.len() == 4 {
                        s.start_line == span[0] + 1 && s.start_column == span[1]
                            && s.end_line == span[2] + 1 && s.end_column == span[3]
                    } else {
                        s.start_line == span[0] + 1 && s.start_column == span[1]
                            && s.end_line == span[0] + 1 && s.end_column == span[2]
                    }
                }),
                Err(e) => !location_span_wf(location.span@) && e@
                    == "unexpected Location::span format"@,
            },
    {
        let span = &location.span;
        if span.len() == 4 {
            let start_line = span[0];
            let start_column = span[1];
            let end_line = span[2];
            let end_column = span[3];
            if 0 <= start_line && start_line < i32::MAX && 0 <= end_line && end_line
                < i32::MAX {
                return Ok(
                    Source {
                        start_line: start_line + 1,
                        end_line: end_line + 1,
                        start_column,
                        end_column,
                        file_path: file_path.to_owned(),
                    },
                );
            }
        } else if span.len() == 3 {
            let start_line = span[0];
            let start_column = span[1];
            let end_column = span[2];
            if 0 <= start_line && start_line < i32::MAX {
                return Ok(
                    Source {
                        start_line: start_line + 1,
                        end_line: start_line + 1,
                        start_column,
                        end_column,
                        file_path: file_path.to_owned(),
                    },
                );
            }
        }
        let mut m = String::new();
        m.append("unexpected Location::span format");
        Err(PreprocessError::new(m))
    }

    /// The link target of this span within its source file.
    pub fn href(&self) -> (r: String)
        requires
            self.start_line >= 0,
            self.end_line >= 0,
        ensures
            r@ == source_href_of(self),
    {
        let mut r = self.file_path.clone();
        r.append("#");
        r.append("L");
        r.append(usize_to_dec(self.start_line as usize).as_str());
        if self.end_line != self.start_line {
            r.append("-L");
            r.append(usize_to_dec(self.end_line as usize).as_str());
        }
        r
    }
}

/// The comments attached to one declaration.
#[derive(Debug)]
pub struct Comments {
    pub leading: Option<String>,
    pub trailing: Option<String>,
    pub leading_detached: Vec<String>,
}

/// What `Comments::from_location` produces for an optional location record.
pub open spec fn comments_match(c: &Comments, location: &Option<Location>) -> bool {
    match location {
        Some(l) => opt_str_eqv(c.leading, l.leading_comments) && opt_str_eqv(
            c.trailing,
            l.trailing_comments,
        ) && c.leading_detached@.map_values(|s: String| s@)
            == l.leading_detached_comments@.map_values(|s: String| s@),
        None => c.leading is None && c.trailing is None && c.leading_detached@.len() == 0,
    }
}

impl Comments {
    /// Copy the comments out of a location record; a declaration without one
    /// has no comments.
    pub fn from_location(location: &Option<Location>) -> (r: Comments)
        ensures
            comments_match(&r, location),
    {
        match location {
            Some(location) => Comments {
                leading: match &location.leading_comments {
                    Some(s) => Some(s.clone()),
                    None => None,
                },
                trailing: match &location.trailing_comments {
                    Some(s) => Some(s.clone()),
                    None => None,
                },
                leading_detached: crate::descriptor::copy_string_vec(
                    &location.leading_detached_comments,
                ),
            },
            None => Default::default(),
        }
    }
}

impl Default for Comments {
    /// A declaration without a location record has no comments.
    fn default() -> (r: Comments)
        ensures
            r.leading is None,
            r.trailing is None,
            r.leading_detached@.len() == 0,
    {
        Comments { leading: None, trailing: None, leading_detached: Vec::new() }
    }
}

/// The decoded source range carries exactly what the span encodes, one-based.
pub open spec fn source_decoded(s: &Source, span: Seq<i32>, file_path: Seq<char>) -> bool {
    &&& s.file_path@ == file_path
    &&& if span.len() == 4 {
        s.start_line == span[0] + 1 && s.start_column == span[1] && s.end_line == span[2]
            + 1 && s.end_column == span[3]
    } else {
        s.start_line == span[0] + 1 && s.start_column == span[1] && s.end_line == span[0]
            + 1 && s.end_column == span[2]
    }
}

/// Does the element at `path` have a well-formed span (or no location at
/// all)?
pub open spec fn location_ok(file: &FileDescriptor, path: Seq<i32>) -> bool {
    match file.source_code_info {
        None => true,
        Some(locs) => match find_location(locs@, path) {
            None => true,
            Some(i) => location_span_wf(locs@[i].span@),
        },
    }
}

/// What the source field of an entity at `path` holds: nothing without a
/// location record, else the decoded span.
pub open spec fn source_matches(s: &Option<Source>, file: &FileDescriptor, path: Seq<i32>) -> bool {
    match file.source_code_info {
        None => s is None,
        Some(locs) => match find_location(locs@, path) {
            None => s is None,
            Some(i) => s is Some && source_decoded(&s->Some_0, locs@[i].span@, file.name@),
        },
    }
}

/// What the comments field of an entity at `path` holds.
pub open spec fn comments_at(c: &Comments, file: &FileDescriptor, path: Seq<i32>) -> bool {
    match file.source_code_info {
        None => comments_match(c, &None),
        Some(locs) => match find_location(locs@, path) {
            None => comments_match(c, &None),
            Some(i) => opt_str_eqv(c.leading, locs@[i].leading_comments) && opt_str_eqv(
                c.trailing,
                locs@[i].trailing_comments,
            ) && c.leading_detached@.map_values(|s: String| s@)
                == locs@[i].leading_detached_comments@.map_values(|s: String| s@),
        },
    }
}

/// Decode the optional location of an entity into its comments and source
/// range; a malformed span is fatal.
fn decode_location(location: &Option<Location>, file: &FileDescriptor) -> (r: Result<
    (Comments, Option<Source>),
    PreprocessError,
>)
    ensures
        match r {
            Ok(p) => comments_match(&p.0, location) && match location {
                Some(l) => location_span_wf(l.span@) && p.1 is Some && source_decoded(
                    &p.1->Some_0,
                    l.span@,
                    file.name@,
                ),
                None => p.1 is None,
            },
            Err(e) => *location is Some && !location_span_wf(location->Some_0.span@)
                && e@ == "unexpected Location::span format"@,
        },
{
    let comments = Comments::from_location(location);
    match location {
        Some(l) => {
            match Source::from_location(l, file.name.as_str()) {
                Ok(s) => Ok((comments, Some(s))),
                Err(e) => Err(e),
            }
        },
        None => Ok((comments, None)),
    }
}

// ---------------------------------------------------------------------------
// Fields
// ---------------------------------------------------------------------------

/// Does the field kind refer to another declared symbol?
pub open spec fn is_ref_kind(k: Option<FieldKind>) -> bool {
    k == Some(FieldKind::Message) || k == Some(FieldKind::Enum)
}

/// The rendered field type carries what the descriptor declares: a symbol
/// link for message and enum references, the scalar kind otherwise, and a
/// placeholder when the descriptor has no kind at all.
pub open spec fn field_type_matches(
    t: &FieldType,
    fd: &FieldDescriptor,
    pkgs: Seq<Seq<char>>,
) -> bool {
    match fd.kind {
        None => t is Unimplemented,
        Some(k) => if k == FieldKind::Message || k == FieldKind::Enum {
            t is Symbol && t->Symbol_0@ == from_fqsl_spec(fd.type_ref@, pkgs)
        } else {
            t is Primitive && t->Primitive_0 == k
        },
    }
}

/// A field declaration rendered for documentation, addressed as a property
/// of its owning message.
#[derive(Debug)]
pub struct SimpleField {
    pub name: String,
    pub meta: Option<Location>,
    pub typ: FieldType,
    pub optional: bool,
    pub oneof_index: Option<i32>,
    pub deprecated: bool,
    pub self_link: SymbolLink,
}

/// The rendered field carries exactly what its descriptor declares.
pub open spec fn simple_field_ok(
    f: &SimpleField,
    file: &FileDescriptor,
    fd: &FieldDescriptor,
    path: Seq<i32>,
    pkgs: Seq<Seq<char>>,
    parent: SymbolLinkView,
) -> bool {
    &&& f.name@ == fd.name@
    &&& meta_matches(f.meta, file, path)
    &&& field_type_matches(&f.typ, fd, pkgs)
    &&& f.optional == fd.proto3_optional
    &&& f.oneof_index == fd.oneof_index
    &&& f.deprecated == fd.deprecated
    &&& f.self_link@ == (SymbolLinkView { property: Some(fd.name@), ..parent })
}

/// The error reported for a field or method whose declared type name cannot
/// be split into package and symbol.
pub open spec fn unresolvable_type_text() -> Seq<char> {
    "unresolvable type reference in descriptor"@
}

fn unresolvable_type_error() -> (r: PreprocessError)
    ensures
        r@ == unresolvable_type_text(),
{
    let mut m = String::new();
    m.append("unresolvable type reference in descriptor");
    PreprocessError::new(m)
}

impl SimpleField {
    /// Render one field declaration: record its identity as a property of
    /// the owning message and resolve a declared message or enum reference
    /// into a symbol link.  A reference whose type name cannot be split is a
    /// structural error.
    pub fn from_descriptor(
        file_descriptor: &FileDescriptor,
        field_descriptor: &FieldDescriptor,
        path: &Vec<i32>,
        packages: &Vec<String>,
        parent_symbol: &SymbolLink,
    ) -> (r: Result<SimpleField, PreprocessError>)
        ensures
            match r {
                Ok(f) => simple_field_ok(
                    &f,
                    file_descriptor,
                    field_descriptor,
                    path@,
                    string_views(packages@),
                    parent_symbol@,
                ) && (is_ref_kind(field_descriptor.kind) ==> crate::links::fqsl_ok(
                    field_descriptor.type_ref@,
                )),
                Err(e) => is_ref_kind(field_descriptor.kind) && !crate::links::fqsl_ok(
                    field_descriptor.type_ref@,
                ) && e@ == unresolvable_type_text(),
            },
    {
        let name = field_descriptor.name.clone();
        let mut self_link = parent_symbol.duplicate();
        self_link.set_property(name.clone());
        let typ: FieldType;
        match field_descriptor.kind {
            None => {
                typ = FieldType::Unimplemented;
            },
            Some(k) => {
                match k {
                    FieldKind::Message | FieldKind::Enum => {
                        let tn = &field_descriptor.type_ref;
                        proof {
                            reveal_strlit("::");
                            assert("::"@ =~= crate::links::prop_sep());
                            crate::links::lemma_fqsl_ok_criterion(tn@);
                        }
                        let tn_len = tn.as_str().unicode_len();
                        if tn_len < 1 {
                            return Err(unresolvable_type_error());
                        }
                        proof {
                            assert(tn@.skip(0) == tn@);
                        }
                        if strutil::occurs_at(tn.as_str(), "::", 0) {
                            return Err(unresolvable_type_error());
                        }
                        typ = FieldType::Symbol(
                            SymbolLink::from_fqsl(tn.clone(), packages),
                        );
                    },
                    _ => {
                        typ = FieldType::Primitive(k);
                    },
                }
            },
        }
        Ok(
            SimpleField {
                name,
                meta: read_source_code_info(file_descriptor, path),
                typ,
                optional: field_descriptor.proto3_optional,
                oneof_index: field_descriptor.oneof_index,
                deprecated: field_descriptor.deprecated,
                self_link,
            },
        )
    }
}

/// The fields of one mutually-exclusive group, rendered together.
#[derive(Debug)]
pub struct OneOfField {
    pub name: String,
    pub meta: Option<Location>,
    pub fields: Vec<SimpleField>,
}

impl OneOfField {
    /// Render one group declaration; its member fields are attached by the
    /// owning message's walk.
    pub fn from_descriptor(
        file_descriptor: &FileDescriptor,
        oneof_name: &String,
        path: &Vec<i32>,
    ) -> (r: OneOfField)
        ensures
            r.name@ == oneof_name@,
            meta_matches(r.meta, file_descriptor, path@),
            r.fields@.len() == 0,
    {
        OneOfField {
            name: oneof_name.clone(),
            meta: read_source_code_info(file_descriptor, path),
            fields: Vec::new(),
        }
    }
}

// ---------------------------------------------------------------------------
// Enums
// ---------------------------------------------------------------------------

/// One rendered enum value.
#[derive(Debug)]
pub struct EnumValue {
    pub tag: i32,
    pub name: String,
    pub deprecated: bool,
}

/// A rendered enum declaration.
#[derive(Debug)]
pub struct Enum {
    pub name: String,
    pub comments: Comments,
    pub source: Option<Source>,
    pub source_url: Option<String>,
    pub values: Vec<EnumValue>,
    pub namespace: Vec<String>,
    pub backlinks: Backlinks,
    pub self_link: SymbolLink,
}

/// The rendered values carry exactly the declared names, tags and flags.
pub open spec fn enum_values_match(
    vals: Seq<EnumValue>,
    dvals: Seq<EnumValueDescriptor>,
) -> bool {
    &&& vals.len() == dvals.len()
    &&& forall|i: int|
        0 <= i < vals.len() ==> (#[trigger] vals[i]).name@ == dvals[i].name@ && vals[i].tag
            == dvals[i].number && vals[i].deprecated == dvals[i].deprecated
}

/// The rendered enum carries exactly what its descriptor declares, with its
/// identity derived from the package and the enclosing message chain.
pub open spec fn enum_built_ok(
    e: &Enum,
    file: &FileDescriptor,
    d: &EnumDescriptor,
    path: Seq<i32>,
    pkgs: Seq<Seq<char>>,
    package: Seq<char>,
    namespace: Seq<Seq<char>>,
) -> bool {
    &&& e.name@ == d.name@
    &&& enum_values_match(e.values@, d.values@)
    &&& e.namespace@.map_values(|s: String| s@) == namespace
    &&& e.backlinks.links@.len() == 0
    &&& e.source_url is None
    &&& e.self_link@ == from_fqsl_spec(entity_fqsl(package, namespace.push(d.name@)), pkgs)
    &&& comments_at(&e.comments, file, path)
    &&& source_matches(&e.source, file, path)
}

impl Enum {
    /// Render one enum declaration: values, comments, source range, and its
    /// symbol identity under the owning package and message chain.
    pub fn from_descriptor(
        file_descriptor: &FileDescriptor,
        enum_descriptor: &EnumDescriptor,
        path: &Vec<i32>,
        packages: &Vec<String>,
        package: String,
        namespace: Vec<String>,
    ) -> (r: Result<Enum, PreprocessError>)
        ensures
            match r {
                Ok(e) => enum_built_ok(
                    &e,
                    file_descriptor,
                    enum_descriptor,
                    path@,
                    string_views(packages@),
                    package@,
                    namespace@.map_values(|s: String| s@),
                ) && location_ok(file_descriptor, path@),
                Err(e) => !location_ok(file_descriptor, path@) && e@
                    == "unexpected Location::span format"@,
            },
    {
        let name = enum_descriptor.name.clone();
        let fqsl = entity_fqsl_string(&package, &namespace, &name);

        let location = read_source_code_info(file_descriptor, path);
        let (comments, source) = match decode_location(&location, file_descriptor) {
            Ok(p) => p,
            Err(e) => {
                return Err(e);
            },
        };

        let mut values: Vec<EnumValue> = Vec::new();
        let dvals = &enum_descriptor.values;
        let mut i: usize = 0;
        while i < dvals.len()
            invariant
                0 <= i <= dvals@.len(),
                values@.len() == i,
                forall|j: int|
                    0 <= j < i ==> (#[trigger] values@[j]).name@ == dvals@[j].name@
                        && values@[j].tag == dvals@[j].number && values@[j].deprecated
                        == dvals@[j].deprecated,
            decreases dvals@.len() - i,
        {
            values.push(
                EnumValue {
                    name: dvals[i].name.clone(),
                    tag: dvals[i].number,
                    deprecated: dvals[i].deprecated,
                },
            );
            i = i + 1;
        }

        proof {
            crate::links::lemma_fqsl_ok_of_dotted(fqsl@);
        }
        let self_link = SymbolLink::from_fqsl(fqsl, packages);
        Ok(
            Enum {
                name,
                values,
                namespace,
                backlinks: Default::default(),
                self_link,
                comments,
                source,
                source_url: None,
            },
        )
    }
}

// ---------------------------------------------------------------------------
// Messages
// ---------------------------------------------------------------------------

/// A rendered message field: a plain field, or a mutually-exclusive group.
#[derive(Debug)]
pub enum Field {
    Simple(SimpleField),
    OneOf(OneOfField),
}

/// A rendered message declaration, with its nested messages and enums.
#[derive(Debug)]
pub struct ProtoMessage {
    pub name: String,
    pub comments: Comments,
    pub source: Option<Source>,
    pub source_url: Option<String>,
    pub nested_message: Vec<ProtoMessage>,
    pub nested_enum: Vec<Enum>,
    pub fields: Vec<Field>,
    pub namespace: Vec<String>,
    pub deprecated: bool,
    pub self_link: SymbolLink,
    pub backlinks: Backlinks,
}

/// The usage edge one symbol-typed field contributes: from the field's own
/// identity (owning message plus field name) to the referenced type.
pub open spec fn field_edge(
    fd: FieldDescriptor,
    pkgs: Seq<Seq<char>>,
    self_link: SymbolLinkView,
) -> (SymbolLinkView, BacklinkView) {
    (
        from_fqsl_spec(fd.type_ref@, pkgs),
        BacklinkView::Symbol(SymbolLinkView { property: Some(fd.name@), ..self_link }),
    )
}

/// The edges contributed by one message's own fields, in declaration order.
pub open spec fn message_own_edges(
    d: MessageDescriptor,
    pkgs: Seq<Seq<char>>,
    self_link: SymbolLinkView,
) -> Seq<(SymbolLinkView, BacklinkView)> {
    d.fields@.filter(|fd: FieldDescriptor| is_ref_kind(fd.kind)).map_values(
        |fd: FieldDescriptor| field_edge(fd, pkgs, self_link),
    )
}

/// The edges one message and its nested messages contribute, depth first in
/// declaration order.
pub open spec fn message_delta(
    d: MessageDescriptor,
    pkgs: Seq<Seq<char>>,
    package: Seq<char>,
    parent: Seq<Seq<char>>,
) -> Seq<(SymbolLinkView, BacklinkView)>
    decreases d, 1int,
{
    let name_path = parent.push(d.name@);
    let self_link = from_fqsl_spec(entity_fqsl(package, name_path), pkgs);
    message_own_edges(d, pkgs, self_link) + messages_delta(
        d.nested_messages@,
        pkgs,
        package,
        name_path,
    )
}

/// The edges a list of sibling messages contributes, in order.
pub open spec fn messages_delta(
    ds: Seq<MessageDescriptor>,
    pkgs: Seq<Seq<char>>,
    package: Seq<char>,
    parent: Seq<Seq<char>>,
) -> Seq<(SymbolLinkView, BacklinkView)>
    decreases ds, 0int,
{
    if ds.len() == 0 {
        Seq::empty()
    } else {
        message_delta(ds[0], pkgs, package, parent) + messages_delta(
            ds.drop_first(),
            pkgs,
            package,
            parent,
        )
    }
}

pub proof fn lemma_messages_delta_snoc(
    ds: Seq<MessageDescriptor>,
    i: int,
    pkgs: Seq<Seq<char>>,
    package: Seq<char>,
    parent: Seq<Seq<char>>,
)
    requires
        0 <= i < ds.len(),
    ensures
        messages_delta(ds.take(i + 1), pkgs, package, parent) == messages_delta(
            ds.take(i),
            pkgs,
            package,
            parent,
        ) + message_delta(ds[i], pkgs, package, parent),
    decreases i,
{
    if i == 0 {
        assert(ds.take(1)[0] == ds[0]);
        assert(ds.take(1).drop_first() =~= Seq::<MessageDescriptor>::empty());
        assert(ds.take(0) =~= Seq::<MessageDescriptor>::empty());
        assert(messages_delta(ds.take(1), pkgs, package, parent) == message_delta(
            ds[0],
            pkgs,
            package,
            parent,
        ) + messages_delta(Seq::<MessageDescriptor>::empty(), pkgs, package, parent));
        assert(messages_delta(Seq::<MessageDescriptor>::empty(), pkgs, package, parent)
            =~= Seq::<(SymbolLinkView, BacklinkView)>::empty());
        assert(message_delta(ds[0], pkgs, package, parent) + Seq::<
            (SymbolLinkView, BacklinkView),
        >::empty() =~= message_delta(ds[0], pkgs, package, parent));
        assert(messages_delta(ds.take(0), pkgs, package, parent) + message_delta(
            ds[0],
            pkgs,
            package,
            parent,
        ) =~= message_delta(ds[0], pkgs, package, parent));
    } else {
        lemma_messages_delta_snoc(ds.drop_first(), i - 1, pkgs, package, parent);
        assert(ds.take(i + 1)[0] == ds[0]);
        assert(ds.take(i)[0] == ds[0]);
        assert(ds.take(i + 1).drop_first() =~= ds.drop_first().take(i));
        assert(ds.take(i).drop_first() =~= ds.drop_first().take(i - 1));
        assert(ds.drop_first()[i - 1] == ds[i]);
        assert((message_delta(ds[0], pkgs, package, parent) + messages_delta(
            ds.drop_first().take(i - 1),
            pkgs,
            package,
            parent,
        )) + message_delta(ds[i], pkgs, package, parent) =~= message_delta(
            ds[0],
            pkgs,
            package,
            parent,
        ) + (messages_delta(ds.drop_first().take(i - 1), pkgs, package, parent)
            + message_delta(ds[i], pkgs, package, parent)));
    }
}

/// The graph after recording a list of edges, in order.
pub open spec fn apply_edges(
    g: Seq<UsageEntryView>,
    edges: Seq<(SymbolLinkView, BacklinkView)>,
) -> Seq<UsageEntryView>
    decreases edges.len(),
{
    if edges.len() == 0 {
        g
    } else {
        apply_edges(push_edge_spec(g, edges[0].0, edges[0].1), edges.drop_first())
    }
}

pub proof fn lemma_apply_edges_concat(
    g: Seq<UsageEntryView>,
    e1: Seq<(SymbolLinkView, BacklinkView)>,
    e2: Seq<(SymbolLinkView, BacklinkView)>,
)
    ensures
        apply_edges(g, e1 + e2) == apply_edges(apply_edges(g, e1), e2),
    decreases e1.len(),
{
    if e1.len() == 0 {
        assert(e1 + e2 =~= e2);
    } else {
        lemma_apply_edges_concat(push_edge_spec(g, e1[0].0, e1[0].1), e1.drop_first(), e2);
        assert((e1 + e2)[0] == e1[0]);
        assert((e1 + e2).drop_first() =~= e1.drop_first() + e2);
    }
}

pub proof fn lemma_apply_edges_push(
    g: Seq<UsageEntryView>,
    es: Seq<(SymbolLinkView, BacklinkView)>,
    e: (SymbolLinkView, BacklinkView),
)
    ensures
        apply_edges(g, es.push(e)) == push_edge_spec(apply_edges(g, es), e.0, e.1),
{
    assert(es.push(e) =~= es + seq![e]);
    lemma_apply_edges_concat(g, es, seq![e]);
    let a1 = apply_edges(g, es);
    assert(seq![e][0] == e);
    assert(apply_edges(a1, seq![e]) == apply_edges(
        push_edge_spec(a1, e.0, e.1),
        seq![e].drop_first(),
    ));
    assert(seq![e].drop_first() =~= Seq::<(SymbolLinkView, BacklinkView)>::empty());
    assert(apply_edges(
        push_edge_spec(a1, e.0, e.1),
        Seq::<(SymbolLinkView, BacklinkView)>::empty(),
    ) == push_edge_spec(a1, e.0, e.1));
}

/// Recording edges only grows the graph.
pub proof fn lemma_apply_edges_monotone(
    g: Seq<UsageEntryView>,
    edges: Seq<(SymbolLinkView, BacklinkView)>,
)
    ensures
        crate::graph::graph_monotone(g, apply_edges(g, edges)),
    decreases edges.len(),
{
    crate::graph::lemma_graph_monotone_refl(g);
    if edges.len() > 0 {
        let g1 = push_edge_spec(g, edges[0].0, edges[0].1);
        crate::graph::lemma_push_edge_spec_monotone(g, edges[0].0, edges[0].1);
        lemma_apply_edges_monotone(g1, edges.drop_first());
        crate::graph::lemma_graph_monotone_trans(g, g1, apply_edges(g1, edges.drop_first()));
    }
}

/// A field declaration the indexer can process: a symbol reference carries a
/// splittable type name, and a group index stays in range.
pub open spec fn field_wf(fd: FieldDescriptor, n_oneofs: int) -> bool {
    &&& is_ref_kind(fd.kind) ==> crate::links::fqsl_ok(fd.type_ref@)
    &&& match fd.oneof_index {
        Some(k) => 0 <= k < n_oneofs,
        None => true,
    }
}

/// A message subtree the indexer can process: every field is well formed and
/// every span that will be decoded is well formed, recursively.
pub open spec fn message_wf(
    d: MessageDescriptor,
    file: FileDescriptor,
    source_path: Seq<i32>,
) -> bool
    decreases d,
{
    &&& location_ok(&file, source_path)
    &&& d.oneofs@.len() <= i32::MAX
    &&& forall|i: int|
        0 <= i < d.fields@.len() ==> field_wf(#[trigger] d.fields@[i], d.oneofs@.len() as int)
    &&& forall|i: int|
        0 <= i < d.nested_messages@.len() ==> message_wf(
            #[trigger] d.nested_messages@[i],
            file,
            source_path.push(i as i32),
        )
    &&& forall|i: int|
        0 <= i < d.nested_enums@.len() ==> location_ok(
            &file,
            #[trigger] source_path.push(i as i32),
        )
}

/// The fields the loop renders, each from its declaration, with the
/// structural path of its position.
pub open spec fn all_fields_ok(
    all: Seq<SimpleField>,
    d: MessageDescriptor,
    file: FileDescriptor,
    source_path: Seq<i32>,
    pkgs: Seq<Seq<char>>,
    self_link: SymbolLinkView,
) -> bool {
    &&& all.len() == d.fields@.len()
    &&& forall|i: int|
        0 <= i < all.len() ==> simple_field_ok(
            &(#[trigger] all[i]),
            &file,
            &d.fields@[i],
            source_path + seq![MESSAGE_FIELD_TAG, i as i32],
            pkgs,
            self_link,
        )
}

/// The rendered field list: the plain fields in declaration order, then one
/// group per declared oneof, each holding its member fields in declaration
/// order.
pub open spec fn fields_partitioned(
    ms_fields: Seq<Field>,
    all: Seq<SimpleField>,
    d: MessageDescriptor,
    file: FileDescriptor,
    source_path: Seq<i32>,
) -> bool {
    let simples = all.filter(|sf: SimpleField| sf.oneof_index is None);
    &&& ms_fields.len() == simples.len() + d.oneofs@.len()
    &&& forall|k: int|
        0 <= k < simples.len() ==> (#[trigger] ms_fields[k]) is Simple
            && ms_fields[k]->Simple_0 == simples[k]
    &&& forall|k: int|
        0 <= k < d.oneofs@.len() ==> {
            let f = #[trigger] ms_fields[simples.len() + k];
            &&& f is OneOf
            &&& f->OneOf_0.name@ == d.oneofs@[k]@
            &&& meta_matches(
                f->OneOf_0.meta,
                &file,
                source_path + seq![MESSAGE_ONEOF_TAG, k as i32],
            )
            &&& f->OneOf_0.fields@ == all.filter(
                |sf: SimpleField| sf.oneof_index == Some(k as i32),
            )
        }
}

/// The rendered field list assembled from some rendering of every declared
/// field.
pub open spec fn fields_assembled(
    ms_fields: Seq<Field>,
    d: MessageDescriptor,
    file: FileDescriptor,
    source_path: Seq<i32>,
    pkgs: Seq<Seq<char>>,
    self_link: SymbolLinkView,
) -> bool {
    exists|all: Seq<SimpleField>|
        #[trigger] all_fields_ok(all, d, file, source_path, pkgs, self_link)
            && fields_partitioned(ms_fields, all, d, file, source_path)
}

/// The rendered message carries exactly what its descriptor declares, its
/// identity derived by the longest-package-prefix rule, recursively for its
/// nested messages and enums.
pub open spec fn message_built_ok(
    m: ProtoMessage,
    file: FileDescriptor,
    d: MessageDescriptor,
    source_path: Seq<i32>,
    pkgs: Seq<Seq<char>>,
    package: Seq<char>,
    parent: Seq<Seq<char>>,
) -> bool
    decreases d,
{
    let name_path = parent.push(d.name@);
    let self_link = from_fqsl_spec(entity_fqsl(package, name_path), pkgs);
    &&& m.name@ == d.name@
    &&& m.self_link@ == self_link
    &&& m.namespace@.map_values(|s: String| s@) == parent
    &&& m.deprecated == d.deprecated
    &&& m.backlinks.links@.len() == 0
    &&& m.source_url is None
    &&& comments_at(&m.comments, &file, source_path)
    &&& source_matches(&m.source, &file, source_path)
    &&& fields_assembled(m.fields@, d, file, source_path, pkgs, self_link)
    &&& m.nested_message@.len() == d.nested_messages@.len()
    &&& forall|i: int|
        0 <= i < d.nested_messages@.len() ==> message_built_ok(
            #[trigger] m.nested_message@[i],
            file,
            d.nested_messages@[i],
            source_path.push(i as i32),
            pkgs,
            package,
            name_path,
        )
    &&& m.nested_enum@.len() == d.nested_enums@.len()
    &&& forall|i: int|
        0 <= i < d.nested_enums@.len() ==> enum_built_ok(
            &(#[trigger] m.nested_enum@[i]),
            &file,
            &d.nested_enums@[i],
            source_path.push(i as i32),
            pkgs,
            package,
            name_path,
        )
}

fn oneof_range_error() -> (r: PreprocessError)
    ensures
        r@ == "oneof index out of range in descriptor"@,
{
    let mut m = String::new();
    m.append("oneof index out of range in descriptor");
    PreprocessError::new(m)
}

impl ProtoMessage {
    /// Render one message declaration, depth first: its fields (plain ones
    /// first, then one group per oneof), its nested messages and enums, and
    /// its symbol identity; push one symbol backlink per message- or
    /// enum-typed field, from the field's own identity onto the referenced
    /// type's entry.
    pub fn from_descriptor(
        file_descriptor: &FileDescriptor,
        message_descriptor: &MessageDescriptor,
        source_path: &Vec<i32>,
        parent_messages: Vec<String>,
        packages: &Vec<String>,
        package: String,
        symbol_usages: &mut SymbolUsages,
    ) -> (r: Result<ProtoMessage, PreprocessError>)
        ensures
            (r is Ok) == message_wf(*message_descriptor, *file_descriptor, source_path@),
            crate::graph::graph_monotone(old(symbol_usages)@, final(symbol_usages)@),
            r is Ok ==> message_built_ok(
                r->Ok_0,
                *file_descriptor,
                *message_descriptor,
                source_path@,
                string_views(packages@),
                package@,
                parent_messages@.map_values(|s: String| s@),
            ) && final(symbol_usages)@ == apply_edges(
                old(symbol_usages)@,
                message_delta(
                    *message_descriptor,
                    string_views(packages@),
                    package@,
                    parent_messages@.map_values(|s: String| s@),
                ),
            ),
        decreases *message_descriptor,
    {
        let ghost d = *message_descriptor;
        let ghost file = *file_descriptor;
        let ghost pkgs = string_views(packages@);
        let ghost parent = parent_messages@.map_values(|s: String| s@);
        let ghost g0 = old(symbol_usages)@;
        let ghost name_path = parent.push(d.name@);
        let ghost self_link_v = from_fqsl_spec(entity_fqsl(package@, name_path), pkgs);

        let name = message_descriptor.name.clone();
        let fqsl = entity_fqsl_string(&package, &parent_messages, &name);
        proof {
            crate::links::lemma_fqsl_ok_of_dotted(fqsl@);
        }
        let self_link = SymbolLink::from_fqsl(fqsl, packages);
        proof {
            assert(self_link@ == self_link_v);
        }

        let mut message_path = crate::descriptor::copy_string_vec(&parent_messages);
        message_path.push(name.clone());
        proof {
            assert(message_path@.map_values(|s: String| s@) =~= name_path);
        }

        // Render every declared field, in order.
        let mut all_fields: Vec<SimpleField> = Vec::new();
        let dn = message_descriptor.fields.len();
        let mut i: usize = 0;
        while i < dn
            invariant
                d == *message_descriptor,
                file == *file_descriptor,
                pkgs == string_views(packages@),
                g0 == old(symbol_usages)@,
                symbol_usages@ == g0,
                self_link@ == self_link_v,
                dn == d.fields@.len(),
                0 <= i <= dn,
                all_fields@.len() == i,
                forall|j: int|
                    0 <= j < i ==> simple_field_ok(
                        &(#[trigger] all_fields@[j]),
                        &file,
                        &d.fields@[j],
                        source_path@ + seq![MESSAGE_FIELD_TAG, j as i32],
                        pkgs,
                        self_link_v,
                    ),
                forall|j: int|
                    0 <= j < i ==> (is_ref_kind((#[trigger] d.fields@[j]).kind)
                        ==> crate::links::fqsl_ok(d.fields@[j].type_ref@)),
            decreases dn - i,
        {
            let mut nested_path = crate::descriptor::copy_i32_vec(source_path);
            nested_path.push(MESSAGE_FIELD_TAG);
            let idx32: i32 = #[verifier::truncate] (i as i32);
            nested_path.push(idx32);
            proof {
                assert(nested_path@ =~= source_path@ + seq![MESSAGE_FIELD_TAG, i as i32]);
            }
            match SimpleField::from_descriptor(
                file_descriptor,
                &message_descriptor.fields[i],
                &nested_path,
                packages,
                &self_link,
            ) {
                Ok(f) => {
                    all_fields.push(f);
                },
                Err(e) => {
                    proof {
                        assert(!field_wf(d.fields@[i as int], d.oneofs@.len() as int));
                        if message_wf(d, file, source_path@) {
                            assert(field_wf(d.fields@[i as int], d.oneofs@.len() as int));
                        }
                        crate::graph::lemma_graph_monotone_refl(g0);
                    }
                    return Err(e);
                },
            }
            i = i + 1;
        }
        let ghost all0 = all_fields@;

        // Render one group shell per declared oneof.
        let mut oneofs: Vec<OneOfField> = Vec::new();
        let on = message_descriptor.oneofs.len();
        if on > (i32::MAX as usize) {
            proof {
                if message_wf(d, file, source_path@) {
                    assert(d.oneofs@.len() <= i32::MAX);
                }
                crate::graph::lemma_graph_monotone_refl(g0);
            }
            return Err(oneof_range_error());
        }
        let mut k: usize = 0;
        while k < on
            invariant
                d == *message_descriptor,
                file == *file_descriptor,
                on == d.oneofs@.len(),
                0 <= k <= on,
                oneofs@.len() == k,
                forall|k2: int|
                    0 <= k2 < k ==> (#[trigger] oneofs@[k2]).name@ == d.oneofs@[k2]@
                        && meta_matches(
                        oneofs@[k2].meta,
                        &file,
                        source_path@ + seq![MESSAGE_ONEOF_TAG, k2 as i32],
                    ) && oneofs@[k2].fields@.len() == 0,
            decreases on - k,
        {
            let mut nested_path = crate::descriptor::copy_i32_vec(source_path);
            nested_path.push(MESSAGE_ONEOF_TAG);
            let idx32: i32 = #[verifier::truncate] (k as i32);
            nested_path.push(idx32);
            proof {
                assert(nested_path@ =~= source_path@ + seq![MESSAGE_ONEOF_TAG, k as i32]);
            }
            oneofs.push(
                OneOfField::from_descriptor(
                    file_descriptor,
                    &message_descriptor.oneofs[k],
                    &nested_path,
                ),
            );
            k = k + 1;
        }

        // Partition the fields into plain ones and their groups, pushing one
        // symbol backlink per reference-typed field as we go.
        let mut fields: Vec<Field> = Vec::new();
        let mut fi: usize = 0;
        proof {
            assert(all0.take(0) =~= Seq::<SimpleField>::empty());
            assert(d.fields@.take(0) =~= Seq::<FieldDescriptor>::empty());
            reveal(Seq::filter);
            assert(symbol_usages@ =~= apply_edges(
                g0,
                d.fields@.take(0).filter(|fd: FieldDescriptor| is_ref_kind(fd.kind))
                    .map_values(|fd: FieldDescriptor| field_edge(fd, pkgs, self_link_v)),
            ));
        }
        while all_fields.len() > 0
            invariant
                d == *message_descriptor,
                file == *file_descriptor,
                pkgs == string_views(packages@),
                g0 == old(symbol_usages)@,
                self_link@ == self_link_v,
                on == d.oneofs@.len(),
                on <= i32::MAX,
                dn == d.fields@.len(),
                all0.len() == dn,
                0 <= fi <= all0.len(),
                all_fields@ == all0.skip(fi as int),
                forall|j: int|
                    0 <= j < all0.len() ==> simple_field_ok(
                        &(#[trigger] all0[j]),
                        &file,
                        &d.fields@[j],
                        source_path@ + seq![MESSAGE_FIELD_TAG, j as i32],
                        pkgs,
                        self_link_v,
                    ),
                forall|j: int|
                    0 <= j < fi ==> match (#[trigger] all0[j]).oneof_index {
                        Some(kk) => 0 <= kk < on as int,
                        None => true,
                    },
                oneofs@.len() == on,
                forall|k2: int|
                    0 <= k2 < on ==> (#[trigger] oneofs@[k2]).name@ == d.oneofs@[k2]@
                        && meta_matches(
                        oneofs@[k2].meta,
                        &file,
                        source_path@ + seq![MESSAGE_ONEOF_TAG, k2 as i32],
                    ),
                forall|k2: int|
                    0 <= k2 < on ==> (#[trigger] oneofs@[k2]).fields@ == all0.take(
                        fi as int,
                    ).filter(|sf: SimpleField| sf.oneof_index == Some(k2 as i32)),
                ({
                    let simples = all0.take(fi as int).filter(
                        |sf: SimpleField| sf.oneof_index is None,
                    );
                    &&& fields@.len() == simples.len()
                    &&& forall|k3: int|
                        0 <= k3 < simples.len() ==> (#[trigger] fields@[k3]) is Simple
                            && fields@[k3]->Simple_0 == simples[k3]
                }),
                symbol_usages@ == apply_edges(
                    g0,
                    d.fields@.take(fi as int).filter(
                        |fd: FieldDescriptor| is_ref_kind(fd.kind),
                    ).map_values(|fd: FieldDescriptor| field_edge(fd, pkgs, self_link_v)),
                ),
            decreases all_fields@.len(),
        {
            proof {
                assert(fi < all0.len());
            }
            let field = all_fields.remove(0);
            proof {
                assert(all0.skip(fi as int)[0] == all0[fi as int]);
                assert(field == all0[fi as int]);
                assert(all_fields@ =~= all0.skip(fi + 1));
                lemma_filter_step(
                    d.fields@,
                    fi as int,
                    |fd: FieldDescriptor| is_ref_kind(fd.kind),
                );
            }
            let ghost pre_edges = d.fields@.take(fi as int).filter(
                |fd: FieldDescriptor| is_ref_kind(fd.kind),
            ).map_values(|fd: FieldDescriptor| field_edge(fd, pkgs, self_link_v));

            match &field.typ {
                FieldType::Symbol(symbol_link) => {
                    let mut field_ref = self_link.duplicate();
                    field_ref.set_property(field.name.clone());
                    symbol_usages.push_edge(symbol_link, Backlink::Symbol(field_ref));
                    proof {
                        assert(is_ref_kind(d.fields@[fi as int].kind));
                        let e = field_edge(d.fields@[fi as int], pkgs, self_link_v);
                        assert(symbol_link@ == e.0);
                        lemma_apply_edges_push(g0, pre_edges, e);
                        assert(d.fields@.take(fi + 1).filter(
                            |fd: FieldDescriptor| is_ref_kind(fd.kind),
                        ).map_values(
                            |fd: FieldDescriptor| field_edge(fd, pkgs, self_link_v),
                        ) =~= pre_edges.push(e));
                    }
                },
                _ => {
                    proof {
                        assert(!is_ref_kind(d.fields@[fi as int].kind));
                        assert(d.fields@.take(fi + 1).filter(
                            |fd: FieldDescriptor| is_ref_kind(fd.kind),
                        ).map_values(
                            |fd: FieldDescriptor| field_edge(fd, pkgs, self_link_v),
                        ) =~= pre_edges);
                    }
                },
            }

            let ghost pre_oneofs = oneofs@;
            let ghost pre_fields = fields@;
            match field.oneof_index {
                Some(kk) => {
                    if kk < 0 {
                        proof {
                            assert(!field_wf(d.fields@[fi as int], on as int));
                            if message_wf(d, file, source_path@) {
                                assert(field_wf(d.fields@[fi as int], on as int));
                            }
                            lemma_apply_edges_monotone(
                                g0,
                                d.fields@.take(fi + 1).filter(
                                    |fd: FieldDescriptor| is_ref_kind(fd.kind),
                                ).map_values(
                                    |fd: FieldDescriptor| field_edge(fd, pkgs, self_link_v),
                                ),
                            );
                        }
                        return Err(oneof_range_error());
                    }
                    let kku = kk as usize;
                    if kku >= oneofs.len() {
                        proof {
                            assert(!field_wf(d.fields@[fi as int], on as int));
                            if message_wf(d, file, source_path@) {
                                assert(field_wf(d.fields@[fi as int], on as int));
                            }
                            lemma_apply_edges_monotone(
                                g0,
                                d.fields@.take(fi + 1).filter(
                                    |fd: FieldDescriptor| is_ref_kind(fd.kind),
                                ).map_values(
                                    |fd: FieldDescriptor| field_edge(fd, pkgs, self_link_v),
                                ),
                            );
                        }
                        return Err(oneof_range_error());
                    }
                    let (oname, ometa, mut ofields) = match oneofs.remove(kku) {
                        OneOfField { name, meta, fields } => (name, meta, fields),
                    };
                    ofields.push(field);
                    oneofs.insert(kku, OneOfField { name: oname, meta: ometa, fields: ofields });
                    proof {
                        assert(oneofs@ =~= pre_oneofs.update(
                            kku as int,
                            oneofs@[kku as int],
                        ));
                        assert forall|k2: int| 0 <= k2 < on implies (
                        #[trigger] oneofs@[k2]).fields@ == all0.take(fi + 1).filter(
                            |sf: SimpleField| sf.oneof_index == Some(k2 as i32),
                        ) by {
                            lemma_filter_step(
                                all0,
                                fi as int,
                                |sf: SimpleField| sf.oneof_index == Some(k2 as i32),
                            );
                            if k2 == kku as int {
                                assert(all0[fi as int].oneof_index == Some(k2 as i32));
                                assert(oneofs@[k2].fields@ =~= pre_oneofs[k2].fields@.push(
                                    all0[fi as int],
                                ));
                            } else {
                                assert(0 <= k2 <= i32::MAX);
                                assert(k2 as i32 as int == k2);
                                assert(all0[fi as int].oneof_index == Some(kk));
                                assert(kk as int == kku as int);
                                assert(all0[fi as int].oneof_index != Some(k2 as i32));
                                assert(oneofs@[k2] == pre_oneofs[k2]);
                            }
                        }
                        lemma_filter_step(
                            all0,
                            fi as int,
                            |sf: SimpleField| sf.oneof_index is None,
                        );
                        assert(all0.take(fi + 1).filter(
                            |sf: SimpleField| sf.oneof_index is None,
                        ) == all0.take(fi as int).filter(
                            |sf: SimpleField| sf.oneof_index is None,
                        ));
                    }
                },
                None => {
                    proof {
                        assert(all0[fi as int].oneof_index is None);
                    }
                    fields.push(Field::Simple(field));
                    proof {
                        lemma_filter_step(
                            all0,
                            fi as int,
                            |sf: SimpleField| sf.oneof_index is None,
                        );
                        assert forall|k2: int| 0 <= k2 < on implies (
                        #[trigger] oneofs@[k2]).fields@ == all0.take(fi + 1).filter(
                            |sf: SimpleField| sf.oneof_index == Some(k2 as i32),
                        ) by {
                            lemma_filter_step(
                                all0,
                                fi as int,
                                |sf: SimpleField| sf.oneof_index == Some(k2 as i32),
                            );
                            assert(all0[fi as int].oneof_index != Some(k2 as i32));
                        }
                        let simples1 = all0.take(fi + 1).filter(
                            |sf: SimpleField| sf.oneof_index is None,
                        );
                        assert(simples1 == all0.take(fi as int).filter(
                            |sf: SimpleField| sf.oneof_index is None,
                        ).push(all0[fi as int]));
                        assert(fields@ == pre_fields.push(Field::Simple(all0[fi as int])));
                    }
                },
            }
            fi = fi + 1;
        }
        proof {
            assert(all0.take(all0.len() as int) =~= all0);
            assert(d.fields@.take(d.fields@.len() as int) =~= d.fields@);
        }

        // Append the groups after the plain fields, in declaration order.
        let ghost oneofs_final = oneofs@;
        let ghost simples_full = all0.filter(|sf: SimpleField| sf.oneof_index is None);
        let mut oi: usize = 0;
        while oneofs.len() > 0
            invariant
                oneofs_final.len() == on,
                0 <= oi <= on,
                oneofs@ == oneofs_final.skip(oi as int),
                fields@.len() == simples_full.len() + oi,
                forall|k3: int|
                    0 <= k3 < simples_full.len() ==> (#[trigger] fields@[k3]) is Simple
                        && fields@[k3]->Simple_0 == simples_full[k3],
                forall|k2: int|
                    0 <= k2 < oi ==> (#[trigger] fields@[simples_full.len() + k2]) is OneOf
                        && fields@[simples_full.len() + k2]->OneOf_0 == oneofs_final[k2],
            decreases oneofs@.len(),
        {
            let of = oneofs.remove(0);
            proof {
                assert(oneofs_final.skip(oi as int)[0] == oneofs_final[oi as int]);
                assert(of == oneofs_final[oi as int]);
            }
            fields.push(Field::OneOf(of));
            proof {
                assert(oneofs@ =~= oneofs_final.skip(oi + 1));
            }
            oi = oi + 1;
        }

        // Decode this message's own location, then walk the nested
        // declarations.
        let location = read_source_code_info(file_descriptor, source_path);
        let (comments, source) = match decode_location(&location, file_descriptor) {
            Ok(p) => p,
            Err(e) => {
                proof {
                    assert(!location_ok(file_descriptor, source_path@));
                    if message_wf(d, file, source_path@) {
                        assert(location_ok(&file, source_path@));
                    }
                    lemma_apply_edges_monotone(
                        g0,
                        message_own_edges(d, pkgs, self_link_v),
                    );
                }
                return Err(e);
            },
        };
        proof {
            assert(location_ok(&file, source_path@));
        }

        let ghost own = message_own_edges(d, pkgs, self_link_v);
        let mut nested_message: Vec<ProtoMessage> = Vec::new();
        let nm = message_descriptor.nested_messages.len();
        let mut j: usize = 0;
        proof {
            assert(d.nested_messages@.take(0) =~= Seq::<MessageDescriptor>::empty());
            assert(own + messages_delta(
                d.nested_messages@.take(0),
                pkgs,
                package@,
                name_path,
            ) =~= own);
        }
        while j < nm
            invariant
                d == *message_descriptor,
                file == *file_descriptor,
                pkgs == string_views(packages@),
                g0 == old(symbol_usages)@,
                name_path == parent.push(d.name@),
                self_link_v == from_fqsl_spec(entity_fqsl(package@, name_path), pkgs),
                own == message_own_edges(d, pkgs, self_link_v),
                message_path@.map_values(|s: String| s@) == name_path,
                nm == d.nested_messages@.len(),
                0 <= j <= nm,
                nested_message@.len() == j,
                forall|j2: int|
                    0 <= j2 < j ==> message_built_ok(
                        #[trigger] nested_message@[j2],
                        file,
                        d.nested_messages@[j2],
                        source_path@.push(j2 as i32),
                        pkgs,
                        package@,
                        name_path,
                    ),
                forall|j2: int|
                    0 <= j2 < j ==> message_wf(
                        #[trigger] d.nested_messages@[j2],
                        file,
                        source_path@.push(j2 as i32),
                    ),
                symbol_usages@ == apply_edges(
                    g0,
                    own + messages_delta(
                        d.nested_messages@.take(j as int),
                        pkgs,
                        package@,
                        name_path,
                    ),
                ),
            decreases nm - j,
        {
            let mut nested_path = crate::descriptor::copy_i32_vec(source_path);
            let idx32: i32 = #[verifier::truncate] (j as i32);
            nested_path.push(idx32);
            proof {
                assert(nested_path@ =~= source_path@.push(j as i32));
            }
            let sub_parent = crate::descriptor::copy_string_vec(&message_path);
            proof {
                assert(sub_parent@.map_values(|s: String| s@) =~= name_path);
            }
            let ghost g_mid = symbol_usages@;
            match ProtoMessage::from_descriptor(
                file_descriptor,
                &message_descriptor.nested_messages[j],
                &nested_path,
                sub_parent,
                packages,
                package.clone(),
                symbol_usages,
            ) {
                Ok(pm) => {
                    nested_message.push(pm);
                    proof {
                        lemma_messages_delta_snoc(
                            d.nested_messages@,
                            j as int,
                            pkgs,
                            package@,
                            name_path,
                        );
                        lemma_apply_edges_concat(
                            g0,
                            own + messages_delta(
                                d.nested_messages@.take(j as int),
                                pkgs,
                                package@,
                                name_path,
                            ),
                            message_delta(
                                d.nested_messages@[j as int],
                                pkgs,
                                package@,
                                name_path,
                            ),
                        );
                        assert((own + messages_delta(
                            d.nested_messages@.take(j as int),
                            pkgs,
                            package@,
                            name_path,
                        )) + message_delta(
                            d.nested_messages@[j as int],
                            pkgs,
                            package@,
                            name_path,
                        ) =~= own + messages_delta(
                            d.nested_messages@.take(j + 1),
                            pkgs,
                            package@,
                            name_path,
                        ));
                    }
                },
                Err(e) => {
                    proof {
                        if message_wf(d, file, source_path@) {
                            assert(message_wf(
                                d.nested_messages@[j as int],
                                file,
                                source_path@.push(j as i32),
                            ));
                        }
                        lemma_apply_edges_monotone(
                            g0,
                            own + messages_delta(
                                d.nested_messages@.take(j as int),
                                pkgs,
                                package@,
                                name_path,
                            ),
                        );
                        crate::graph::lemma_graph_monotone_trans(
                            g0,
                            g_mid,
                            symbol_usages@,
                        );
                    }
                    return Err(e);
                },
            }
            j = j + 1;
        }
        proof {
            assert(d.nested_messages@.take(nm as int) =~= d.nested_messages@);
        }

        let mut nested_enum: Vec<Enum> = Vec::new();
        let ne = message_descriptor.nested_enums.len();
        let mut j2: usize = 0;
        while j2 < ne
            invariant
                d == *message_descriptor,
                file == *file_descriptor,
                pkgs == string_views(packages@),
                g0 == old(symbol_usages)@,
                name_path == parent.push(d.name@),
                self_link_v == from_fqsl_spec(entity_fqsl(package@, name_path), pkgs),
                own == message_own_edges(d, pkgs, self_link_v),
                message_path@.map_values(|s: String| s@) == name_path,
                symbol_usages@ == apply_edges(
                    g0,
                    own + messages_delta(d.nested_messages@, pkgs, package@, name_path),
                ),
                ne == d.nested_enums@.len(),
                0 <= j2 <= ne,
                nested_enum@.len() == j2,
                forall|j3: int|
                    0 <= j3 < j2 ==> enum_built_ok(
                        &(#[trigger] nested_enum@[j3]),
                        &file,
                        &d.nested_enums@[j3],
                        source_path@.push(j3 as i32),
                        pkgs,
                        package@,
                        name_path,
                    ),
                forall|j3: int|
                    0 <= j3 < j2 ==> location_ok(
                        &file,
                        #[trigger] source_path@.push(j3 as i32),
                    ),
            decreases ne - j2,
        {
            let mut nested_path = crate::descriptor::copy_i32_vec(source_path);
            let idx32: i32 = #[verifier::truncate] (j2 as i32);
            nested_path.push(idx32);
            proof {
                assert(nested_path@ =~= source_path@.push(j2 as i32));
            }
            let sub_parent = crate::descriptor::copy_string_vec(&message_path);
            proof {
                assert(sub_parent@.map_values(|s: String| s@) =~= name_path);
            }
            match Enum::from_descriptor(
                file_descriptor,
                &message_descriptor.nested_enums[j2],
                &nested_path,
                packages,
                package.clone(),
                sub_parent,
            ) {
                Ok(en) => {
                    nested_enum.push(en);
                },
                Err(e) => {
                    proof {
                        if message_wf(d, file, source_path@) {
                            assert(location_ok(&file, source_path@.push(j2 as i32)));
                        }
                        lemma_apply_edges_monotone(
                            g0,
                            own + messages_delta(
                                d.nested_messages@,
                                pkgs,
                                package@,
                                name_path,
                            ),
                        );
                    }
                    return Err(e);
                },
            }
            j2 = j2 + 1;
        }

        let m = ProtoMessage {
            name,
            self_link,
            namespace: parent_messages,
            comments,
            source,
            source_url: None,
            nested_message,
            nested_enum,
            fields,
            deprecated: message_descriptor.deprecated,
            backlinks: Default::default(),
        };
        proof {
            assert forall|ii: int| 0 <= ii < d.fields@.len() implies field_wf(
                #[trigger] d.fields@[ii],
                d.oneofs@.len() as int,
            ) by {
                assert(simple_field_ok(
                    &all0[ii],
                    &file,
                    &d.fields@[ii],
                    source_path@ + seq![MESSAGE_FIELD_TAG, ii as i32],
                    pkgs,
                    self_link_v,
                ));
                assert(all0[ii].oneof_index == d.fields@[ii].oneof_index);
            }
            assert(message_wf(d, file, source_path@));
            assert(all_fields_ok(all0, d, file, source_path@, pkgs, self_link_v));
            assert(fields_partitioned(m.fields@, all0, d, file, source_path@));
            assert(fields_assembled(
                m.fields@,
                d,
                file,
                source_path@,
                pkgs,
                self_link_v,
            ));
            assert(message_built_ok(
                m,
                file,
                d,
                source_path@,
                pkgs,
                package@,
                parent,
            ));
            assert(own + messages_delta(d.nested_messages@, pkgs, package@, name_path)
                == message_delta(d, pkgs, package@, parent));
            assert(symbol_usages@ == apply_edges(
                g0,
                message_delta(d, pkgs, package@, parent),
            ));
            lemma_apply_edges_monotone(g0, message_delta(d, pkgs, package@, parent));
        }
        Ok(m)
    }
}

// ---------------------------------------------------------------------------
// Services and methods
// ---------------------------------------------------------------------------

/// A rendered service method, addressed as a property of its service.
#[derive(Debug)]
pub struct Method {
    pub name: String,
    pub request_message: SymbolLink,
    pub response_message: SymbolLink,
    pub comments: Comments,
    pub source: Option<Source>,
    pub source_url: Option<String>,
    pub deprecated: bool,
    pub self_link: SymbolLink,
    pub backlinks: Backlinks,
}

/// A rendered service declaration.
#[derive(Debug)]
pub struct Service {
    pub name: String,
    pub methods: Vec<Method>,
    pub comments: Comments,
    pub source: Option<Source>,
    pub source_url: Option<String>,
    pub self_link: SymbolLink,
    pub backlinks: Backlinks,
}

/// The identity of a service: the package-qualified service name.
pub open spec fn service_link_of(
    s: ServiceDescriptor,
    package: Seq<char>,
    pkgs: Seq<Seq<char>>,
) -> SymbolLinkView {
    from_fqsl_spec(entity_fqsl(package, seq![s.name@]), pkgs)
}

/// The identity of a method: its service's identity with the method name as
/// the property.
pub open spec fn method_link_of(
    service_link: SymbolLinkView,
    m: MethodDescriptor,
) -> SymbolLinkView {
    SymbolLinkView { property: Some(m.name@), ..service_link }
}

/// The graph after recording one method: the method becomes a known symbol,
/// and one symbol backlink from the method lands on its request type and one
/// on its response type.
pub open spec fn method_graph(
    g: Seq<UsageEntryView>,
    m: MethodDescriptor,
    service_link: SymbolLinkView,
    pkgs: Seq<Seq<char>>,
) -> Seq<UsageEntryView> {
    let ml = method_link_of(service_link, m);
    let g1 = crate::graph::ensure_entry_spec(g, ml);
    let g2 = push_edge_spec(
        g1,
        from_fqsl_spec(m.input_type->Some_0@, pkgs),
        BacklinkView::Symbol(ml),
    );
    push_edge_spec(
        g2,
        from_fqsl_spec(m.output_type->Some_0@, pkgs),
        BacklinkView::Symbol(ml),
    )
}

pub open spec fn methods_graph(
    g: Seq<UsageEntryView>,
    ms: Seq<MethodDescriptor>,
    service_link: SymbolLinkView,
    pkgs: Seq<Seq<char>>,
) -> Seq<UsageEntryView>
    decreases ms.len(),
{
    if ms.len() == 0 {
        g
    } else {
        methods_graph(
            method_graph(g, ms[0], service_link, pkgs),
            ms.drop_first(),
            service_link,
            pkgs,
        )
    }
}

pub proof fn lemma_methods_graph_snoc(
    g: Seq<UsageEntryView>,
    ms: Seq<MethodDescriptor>,
    i: int,
    service_link: SymbolLinkView,
    pkgs: Seq<Seq<char>>,
)
    requires
        0 <= i < ms.len(),
    ensures
        methods_graph(g, ms.take(i + 1), service_link, pkgs) == method_graph(
            methods_graph(g, ms.take(i), service_link, pkgs),
            ms[i],
            service_link,
            pkgs,
        ),
    decreases i,
{
    if i == 0 {
        assert(ms.take(1)[0] == ms[0]);
        assert(ms.take(1).drop_first() =~= Seq::<MethodDescriptor>::empty());
        assert(ms.take(0) =~= Seq::<MethodDescriptor>::empty());
        assert(methods_graph(g, ms.take(1), service_link, pkgs) == methods_graph(
            method_graph(g, ms[0], service_link, pkgs),
            Seq::<MethodDescriptor>::empty(),
            service_link,
            pkgs,
        ));
        assert(methods_graph(
            method_graph(g, ms[0], service_link, pkgs),
            Seq::<MethodDescriptor>::empty(),
            service_link,
            pkgs,
        ) == method_graph(g, ms[0], service_link, pkgs));
        assert(methods_graph(g, ms.take(0), service_link, pkgs) == g);
    } else {
        let g1 = method_graph(g, ms[0], service_link, pkgs);
        lemma_methods_graph_snoc(g1, ms.drop_first(), i - 1, service_link, pkgs);
        assert(ms.take(i + 1)[0] == ms[0]);
        assert(ms.take(i)[0] == ms[0]);
        assert(ms.take(i + 1).drop_first() =~= ms.drop_first().take(i));
        assert(ms.take(i).drop_first() =~= ms.drop_first().take(i - 1));
        assert(ms.drop_first()[i - 1] == ms[i]);
        assert(methods_graph(g, ms.take(i + 1), service_link, pkgs) == methods_graph(
            g1,
            ms.drop_first().take(i),
            service_link,
            pkgs,
        ));
        assert(methods_graph(g, ms.take(i), service_link, pkgs) == methods_graph(
            g1,
            ms.drop_first().take(i - 1),
            service_link,
            pkgs,
        ));
    }
}

/// The graph after recording one service: the service becomes a known
/// symbol, then each of its methods is recorded in order.
pub open spec fn service_graph(
    g: Seq<UsageEntryView>,
    s: ServiceDescriptor,
    package: Seq<char>,
    pkgs: Seq<Seq<char>>,
) -> Seq<UsageEntryView> {
    let sl = service_link_of(s, package, pkgs);
    methods_graph(crate::graph::ensure_entry_spec(g, sl), s.methods@, sl, pkgs)
}

pub open spec fn services_graph(
    g: Seq<UsageEntryView>,
    ss: Seq<ServiceDescriptor>,
    package: Seq<char>,
    pkgs: Seq<Seq<char>>,
) -> Seq<UsageEntryView>
    decreases ss.len(),
{
    if ss.len() == 0 {
        g
    } else {
        services_graph(service_graph(g, ss[0], package, pkgs), ss.drop_first(), package, pkgs)
    }
}

pub proof fn lemma_services_graph_snoc(
    g: Seq<UsageEntryView>,
    ss: Seq<ServiceDescriptor>,
    i: int,
    package: Seq<char>,
    pkgs: Seq<Seq<char>>,
)
    requires
        0 <= i < ss.len(),
    ensures
        services_graph(g, ss.take(i + 1), package, pkgs) == service_graph(
            services_graph(g, ss.take(i), package, pkgs),
            ss[i],
            package,
            pkgs,
        ),
    decreases i,
{
    if i == 0 {
        assert(ss.take(1)[0] == ss[0]);
        assert(ss.take(1).drop_first() =~= Seq::<ServiceDescriptor>::empty());
        assert(ss.take(0) =~= Seq::<ServiceDescriptor>::empty());
        assert(services_graph(g, ss.take(1), package, pkgs) == services_graph(
            service_graph(g, ss[0], package, pkgs),
            Seq::<ServiceDescriptor>::empty(),
            package,
            pkgs,
        ));
        assert(services_graph(
            service_graph(g, ss[0], package, pkgs),
            Seq::<ServiceDescriptor>::empty(),
            package,
            pkgs,
        ) == service_graph(g, ss[0], package, pkgs));
        assert(services_graph(g, ss.take(0), package, pkgs) == g);
    } else {
        let g1 = service_graph(g, ss[0], package, pkgs);
        lemma_services_graph_snoc(g1, ss.drop_first(), i - 1, package, pkgs);
        assert(ss.take(i + 1)[0] == ss[0]);
        assert(ss.take(i)[0] == ss[0]);
        assert(ss.take(i + 1).drop_first() =~= ss.drop_first().take(i));
        assert(ss.take(i).drop_first() =~= ss.drop_first().take(i - 1));
        assert(ss.drop_first()[i - 1] == ss[i]);
        assert(services_graph(g, ss.take(i + 1), package, pkgs) == services_graph(
            g1,
            ss.drop_first().take(i),
            package,
            pkgs,
        ));
        assert(services_graph(g, ss.take(i), package, pkgs) == services_graph(
            g1,
            ss.drop_first().take(i - 1),
            package,
            pkgs,
        ));
    }
}

/// A method the indexer can process: it declares a request and a response
/// type whose names can be split.
pub open spec fn method_wf(m: MethodDescriptor) -> bool {
    &&& m.input_type is Some && crate::links::fqsl_ok(m.input_type->Some_0@)
    &&& m.output_type is Some && crate::links::fqsl_ok(m.output_type->Some_0@)
}

/// The structural path of service `si` in a file.
pub open spec fn service_path(si: i32) -> Seq<i32> {
    seq![SERVICE_TAG, si]
}

/// The structural path of method `mi` of service `si`.
pub open spec fn method_path(si: i32, mi: i32) -> Seq<i32> {
    seq![SERVICE_TAG, si, SERVICE_METHOD_TAG, mi]
}

pub open spec fn service_wf(file: FileDescriptor, s: ServiceDescriptor, si: i32) -> bool {
    &&& location_ok(&file, service_path(si))
    &&& forall|mi: int|
        0 <= mi < s.methods@.len() ==> method_wf(#[trigger] s.methods@[mi]) && location_ok(
            &file,
            method_path(si, mi as i32),
        )
}

/// The rendered method carries exactly what its descriptor declares.
pub open spec fn method_built_ok(
    me: Method,
    file: FileDescriptor,
    m: MethodDescriptor,
    service_link: SymbolLinkView,
    path: Seq<i32>,
    pkgs: Seq<Seq<char>>,
) -> bool {
    &&& me.name@ == m.name@
    &&& me.self_link@ == method_link_of(service_link, m)
    &&& me.request_message@ == from_fqsl_spec(m.input_type->Some_0@, pkgs)
    &&& me.response_message@ == from_fqsl_spec(m.output_type->Some_0@, pkgs)
    &&& me.deprecated == m.deprecated
    &&& me.backlinks.links@.len() == 0
    &&& me.source_url is None
    &&& comments_at(&me.comments, &file, path)
    &&& source_matches(&me.source, &file, path)
}

/// The rendered service carries exactly what its descriptor declares.
pub open spec fn service_built_ok(
    sv: Service,
    file: FileDescriptor,
    s: ServiceDescriptor,
    si: i32,
    package: Seq<char>,
    pkgs: Seq<Seq<char>>,
) -> bool {
    &&& sv.name@ == s.name@
    &&& sv.self_link@ == service_link_of(s, package, pkgs)
    &&& sv.backlinks.links@.len() == 0
    &&& sv.source_url is None
    &&& comments_at(&sv.comments, &file, service_path(si))
    &&& source_matches(&sv.source, &file, service_path(si))
    &&& sv.methods@.len() == s.methods@.len()
    &&& forall|mi: int|
        0 <= mi < s.methods@.len() ==> method_built_ok(
            #[trigger] sv.methods@[mi],
            file,
            s.methods@[mi],
            service_link_of(s, package, pkgs),
            method_path(si, mi as i32),
            pkgs,
        )
}

impl Service {
    /// Render one service and its methods, making the service and each
    /// method a known symbol and recording one symbol backlink from each
    /// method onto its request and its response type.
    fn from_descriptor(
        file_descriptor: &FileDescriptor,
        service_descriptor: &ServiceDescriptor,
        service_idx: i32,
        packages: &Vec<String>,
        symbol_usages: &mut SymbolUsages,
    ) -> (r: Result<Service, PreprocessError>)
        ensures
            (r is Ok) == service_wf(*file_descriptor, *service_descriptor, service_idx),
            crate::graph::graph_monotone(old(symbol_usages)@, final(symbol_usages)@),
            r is Ok ==> service_built_ok(
                r->Ok_0,
                *file_descriptor,
                *service_descriptor,
                service_idx,
                file_descriptor.package@,
                string_views(packages@),
            ) && final(symbol_usages)@ == service_graph(
                old(symbol_usages)@,
                *service_descriptor,
                file_descriptor.package@,
                string_views(packages@),
            ),
    {
        let ghost file = *file_descriptor;
        let ghost s = *service_descriptor;
        let ghost pkgs = string_views(packages@);
        let ghost g0 = old(symbol_usages)@;
        let ghost sl = service_link_of(s, file.package@, pkgs);

        let service_name = service_descriptor.name.clone();
        let empty_ns: Vec<String> = Vec::new();
        let fqsl = entity_fqsl_string(&file_descriptor.package, &empty_ns, &service_name);
        proof {
            crate::links::lemma_fqsl_ok_of_dotted(fqsl@);
            assert(Seq::<Seq<char>>::empty().push(s.name@) =~= seq![s.name@]);
        }
        let service_link = SymbolLink::from_fqsl(fqsl, packages);
        proof {
            assert(service_link@ == sl);
        }
        symbol_usages.ensure_entry(&service_link);

        let mut spath: Vec<i32> = Vec::new();
        spath.push(SERVICE_TAG);
        spath.push(service_idx);
        proof {
            assert(spath@ =~= service_path(service_idx));
        }
        let location = read_source_code_info(file_descriptor, &spath);
        let (comments, source) = match decode_location(&location, file_descriptor) {
            Ok(p) => p,
            Err(e) => {
                proof {
                    assert(!location_ok(&file, service_path(service_idx)));
                    if service_wf(file, s, service_idx) {
                        assert(location_ok(&file, service_path(service_idx)));
                    }
                }
                return Err(e);
            },
        };

        let mut methods: Vec<Method> = Vec::new();
        let mn = service_descriptor.methods.len();
        let mut mi: usize = 0;
        proof {
            assert(s.methods@.take(0) =~= Seq::<MethodDescriptor>::empty());
        }
        while mi < mn
            invariant
                file == *file_descriptor,
                s == *service_descriptor,
                pkgs == string_views(packages@),
                g0 == old(symbol_usages)@,
                sl == service_link_of(s, file.package@, pkgs),
                service_link@ == sl,
                mn == s.methods@.len(),
                0 <= mi <= mn,
                methods@.len() == mi,
                forall|m2: int|
                    0 <= m2 < mi ==> method_built_ok(
                        #[trigger] methods@[m2],
                        file,
                        s.methods@[m2],
                        sl,
                        method_path(service_idx, m2 as i32),
                        pkgs,
                    ),
                forall|m2: int|
                    0 <= m2 < mi ==> method_wf(#[trigger] s.methods@[m2]) && location_ok(
                        &file,
                        method_path(service_idx, m2 as i32),
                    ),
                symbol_usages@ == methods_graph(
                    crate::graph::ensure_entry_spec(g0, sl),
                    s.methods@.take(mi as int),
                    sl,
                    pkgs,
                ),
            decreases mn - mi,
        {
            let m = &service_descriptor.methods[mi];
            let method_name = m.name.clone();
            let mut method_link = service_link.duplicate();
            method_link.set_property(method_name.clone());
            proof {
                assert(method_link@ == method_link_of(sl, s.methods@[mi as int]));
            }
            symbol_usages.ensure_entry(&method_link);

            let request_fqsl = match &m.input_type {
                Some(t) => t.clone(),
                None => {
                    proof {
                        let x = methods_graph(
                            crate::graph::ensure_entry_spec(g0, sl),
                            s.methods@.take(mi as int),
                            sl,
                            pkgs,
                        );
                        lemma_ensure_entry_monotone(x, method_link@);
                        method_not_wf_helper(file, s, service_idx, mi as int);
                        monotone_helper(g0, sl, s, mi as int, pkgs, symbol_usages@);
                    }
                    return Err(unresolvable_type_error());
                },
            };
            proof {
                reveal_strlit("::");
                assert("::"@ =~= crate::links::prop_sep());
                crate::links::lemma_fqsl_ok_criterion(request_fqsl@);
                assert(request_fqsl@.skip(0) == request_fqsl@);
            }
            if request_fqsl.as_str().unicode_len() < 1 || strutil::occurs_at(
                request_fqsl.as_str(),
                "::",
                0,
            ) {
                proof {
                    let x = methods_graph(
                        crate::graph::ensure_entry_spec(g0, sl),
                        s.methods@.take(mi as int),
                        sl,
                        pkgs,
                    );
                    lemma_ensure_entry_monotone(x, method_link@);
                    method_not_wf_helper(file, s, service_idx, mi as int);
                    monotone_helper(g0, sl, s, mi as int, pkgs, symbol_usages@);
                }
                return Err(unresolvable_type_error());
            }
            let request_message = SymbolLink::from_fqsl(request_fqsl, packages);
            symbol_usages.push_edge(
                &request_message,
                Backlink::Symbol(method_link.duplicate()),
            );

            let response_fqsl = match &m.output_type {
                Some(t) => t.clone(),
                None => {
                    proof {
                        let x = methods_graph(
                            crate::graph::ensure_entry_spec(g0, sl),
                            s.methods@.take(mi as int),
                            sl,
                            pkgs,
                        );
                        let x1 = crate::graph::ensure_entry_spec(x, method_link@);
                        lemma_ensure_entry_monotone(x, method_link@);
                        crate::graph::lemma_push_edge_spec_monotone(
                            x1,
                            request_message@,
                            BacklinkView::Symbol(method_link@),
                        );
                        crate::graph::lemma_graph_monotone_trans(x, x1, symbol_usages@);
                        method_not_wf_helper(file, s, service_idx, mi as int);
                        monotone_helper(g0, sl, s, mi as int, pkgs, symbol_usages@);
                    }
                    return Err(unresolvable_type_error());
                },
            };
            proof {
                crate::links::lemma_fqsl_ok_criterion(response_fqsl@);
                assert(response_fqsl@.skip(0) == response_fqsl@);
            }
            if response_fqsl.as_str().unicode_len() < 1 || strutil::occurs_at(
                response_fqsl.as_str(),
                "::",
                0,
            ) {
                proof {
                    let x = methods_graph(
                        crate::graph::ensure_entry_spec(g0, sl),
                        s.methods@.take(mi as int),
                        sl,
                        pkgs,
                    );
                    let x1 = crate::graph::ensure_entry_spec(x, method_link@);
                    lemma_ensure_entry_monotone(x, method_link@);
                    crate::graph::lemma_push_edge_spec_monotone(
                        x1,
                        request_message@,
                        BacklinkView::Symbol(method_link@),
                    );
                    crate::graph::lemma_graph_monotone_trans(x, x1, symbol_usages@);
                    method_not_wf_helper(file, s, service_idx, mi as int);
                    monotone_helper(g0, sl, s, mi as int, pkgs, symbol_usages@);
                }
                return Err(unresolvable_type_error());
            }
            let response_message = SymbolLink::from_fqsl(response_fqsl, packages);
            symbol_usages.push_edge(
                &response_message,
                Backlink::Symbol(method_link.duplicate()),
            );
            proof {
                let x = methods_graph(
                    crate::graph::ensure_entry_spec(g0, sl),
                    s.methods@.take(mi as int),
                    sl,
                    pkgs,
                );
                assert(request_message@ == from_fqsl_spec(
                    s.methods@[mi as int].input_type->Some_0@,
                    pkgs,
                ));
                assert(response_message@ == from_fqsl_spec(
                    s.methods@[mi as int].output_type->Some_0@,
                    pkgs,
                ));
                assert(symbol_usages@ == method_graph(x, s.methods@[mi as int], sl, pkgs));
            }

            let mut mpath: Vec<i32> = Vec::new();
            mpath.push(SERVICE_TAG);
            mpath.push(service_idx);
            mpath.push(SERVICE_METHOD_TAG);
            let mi32: i32 = #[verifier::truncate] (mi as i32);
            mpath.push(mi32);
            proof {
                assert(mpath@ =~= method_path(service_idx, mi as i32));
            }
            let mlocation = read_source_code_info(file_descriptor, &mpath);
            let (mcomments, msource) = match decode_location(&mlocation, file_descriptor) {
                Ok(p) => p,
                Err(e) => {
                    proof {
                        assert(!location_ok(&file, method_path(service_idx, mi as i32)));
                        if service_wf(file, s, service_idx) {
                            assert(location_ok(
                                &file,
                                method_path(service_idx, mi as i32),
                            ));
                        }
                        let x = methods_graph(
                            crate::graph::ensure_entry_spec(g0, sl),
                            s.methods@.take(mi as int),
                            sl,
                            pkgs,
                        );
                        lemma_method_graph_monotone(x, s.methods@[mi as int], sl, pkgs);
                        monotone_helper(g0, sl, s, mi as int, pkgs, symbol_usages@);
                    }
                    return Err(e);
                },
            };

            methods.push(
                Method {
                    name: method_name,
                    request_message,
                    response_message,
                    self_link: method_link,
                    deprecated: m.deprecated,
                    backlinks: Default::default(),
                    comments: mcomments,
                    source: msource,
                    source_url: None,
                },
            );
            proof {
                lemma_methods_graph_snoc(
                    crate::graph::ensure_entry_spec(g0, sl),
                    s.methods@,
                    mi as int,
                    sl,
                    pkgs,
                );
            }
            mi = mi + 1;
        }
        proof {
            assert(s.methods@.take(mn as int) =~= s.methods@);
            lemma_service_graph_monotone(g0, s, file.package@, pkgs);
        }
        Ok(
            Service {
                name: service_name,
                methods,
                self_link: service_link,
                backlinks: Default::default(),
                comments,
                source,
                source_url: None,
            },
        )
    }
}

/// A method that declares no request or response type makes its service
/// malformed.
proof fn method_not_wf_helper(file: FileDescriptor, s: ServiceDescriptor, si: i32, mi: int)
    requires
        0 <= mi < s.methods@.len(),
        !method_wf(s.methods@[mi]),
    ensures
        !service_wf(file, s, si),
{
    if service_wf(file, s, si) {
        assert(method_wf(s.methods@[mi]));
    }
}

/// The graph after any prefix of a service's methods has only grown.
proof fn monotone_helper(
    g0: Seq<UsageEntryView>,
    sl: SymbolLinkView,
    s: ServiceDescriptor,
    mi: int,
    pkgs: Seq<Seq<char>>,
    g_now: Seq<UsageEntryView>,
)
    requires
        0 <= mi <= s.methods@.len(),
        crate::graph::graph_monotone(
            methods_graph(
                crate::graph::ensure_entry_spec(g0, sl),
                s.methods@.take(mi),
                sl,
                pkgs,
            ),
            g_now,
        ),
    ensures
        crate::graph::graph_monotone(g0, g_now),
{
    let g1 = crate::graph::ensure_entry_spec(g0, sl);
    lemma_ensure_entry_monotone(g0, sl);
    lemma_methods_graph_monotone(g1, s.methods@.take(mi), sl, pkgs);
    let g2 = methods_graph(g1, s.methods@.take(mi), sl, pkgs);
    crate::graph::lemma_graph_monotone_trans(g0, g1, g2);
    crate::graph::lemma_graph_monotone_trans(g0, g2, g_now);
}

pub proof fn lemma_ensure_entry_monotone(g: Seq<UsageEntryView>, k: SymbolLinkView)
    ensures
        crate::graph::graph_monotone(g, crate::graph::ensure_entry_spec(g, k)),
{
    let g1 = crate::graph::ensure_entry_spec(g, k);
    assert forall|i: int| 0 <= i < g.len() implies (#[trigger] g1[i]).0 == g[i].0
        && g[i].1.is_prefix_of(g1[i].1) by {
        assert(g[i].1 =~= g1[i].1.subrange(0, g[i].1.len() as int));
    }
}

pub proof fn lemma_method_graph_monotone(
    g: Seq<UsageEntryView>,
    m: MethodDescriptor,
    sl: SymbolLinkView,
    pkgs: Seq<Seq<char>>,
)
    ensures
        crate::graph::graph_monotone(g, method_graph(g, m, sl, pkgs)),
{
    let ml = method_link_of(sl, m);
    let g1 = crate::graph::ensure_entry_spec(g, ml);
    let g2 = push_edge_spec(
        g1,
        from_fqsl_spec(m.input_type->Some_0@, pkgs),
        BacklinkView::Symbol(ml),
    );
    let g3 = push_edge_spec(
        g2,
        from_fqsl_spec(m.output_type->Some_0@, pkgs),
        BacklinkView::Symbol(ml),
    );
    lemma_ensure_entry_monotone(g, ml);
    crate::graph::lemma_push_edge_spec_monotone(
        g1,
        from_fqsl_spec(m.input_type->Some_0@, pkgs),
        BacklinkView::Symbol(ml),
    );
    crate::graph::lemma_push_edge_spec_monotone(
        g2,
        from_fqsl_spec(m.output_type->Some_0@, pkgs),
        BacklinkView::Symbol(ml),
    );
    crate::graph::lemma_graph_monotone_trans(g, g1, g2);
    crate::graph::lemma_graph_monotone_trans(g, g2, g3);
}

pub proof fn lemma_methods_graph_monotone(
    g: Seq<UsageEntryView>,
    ms: Seq<MethodDescriptor>,
    sl: SymbolLinkView,
    pkgs: Seq<Seq<char>>,
)
    ensures
        crate::graph::graph_monotone(g, methods_graph(g, ms, sl, pkgs)),
    decreases ms.len(),
{
    crate::graph::lemma_graph_monotone_refl(g);
    if ms.len() > 0 {
        let g1 = method_graph(g, ms[0], sl, pkgs);
        lemma_method_graph_monotone(g, ms[0], sl, pkgs);
        lemma_methods_graph_monotone(g1, ms.drop_first(), sl, pkgs);
        crate::graph::lemma_graph_monotone_trans(
            g,
            g1,
            methods_graph(g1, ms.drop_first(), sl, pkgs),
        );
    }
}

pub proof fn lemma_service_graph_monotone(
    g: Seq<UsageEntryView>,
    s: ServiceDescriptor,
    package: Seq<char>,
    pkgs: Seq<Seq<char>>,
)
    ensures
        crate::graph::graph_monotone(g, service_graph(g, s, package, pkgs)),
{
    let sl = service_link_of(s, package, pkgs);
    let g1 = crate::graph::ensure_entry_spec(g, sl);
    lemma_ensure_entry_monotone(g, sl);
    lemma_methods_graph_monotone(g1, s.methods@, sl, pkgs);
    crate::graph::lemma_graph_monotone_trans(g, g1, methods_graph(g1, s.methods@, sl, pkgs));
}

pub proof fn lemma_services_graph_monotone(
    g: Seq<UsageEntryView>,
    ss: Seq<ServiceDescriptor>,
    package: Seq<char>,
    pkgs: Seq<Seq<char>>,
)
    ensures
        crate::graph::graph_monotone(g, services_graph(g, ss, package, pkgs)),
    decreases ss.len(),
{
    crate::graph::lemma_graph_monotone_refl(g);
    if ss.len() > 0 {
        let g1 = service_graph(g, ss[0], package, pkgs);
        lemma_service_graph_monotone(g, ss[0], package, pkgs);
        lemma_services_graph_monotone(g1, ss.drop_first(), package, pkgs);
        crate::graph::lemma_graph_monotone_trans(
            g,
            g1,
            services_graph(g1, ss.drop_first(), package, pkgs),
        );
    }
}

// ---------------------------------------------------------------------------
// Files and namespaces
// ---------------------------------------------------------------------------

/// Everything one schema file renders to: its services, messages and enums.
#[derive(Debug)]
pub struct ProtoFileDescriptorTemplate {
    pub services: Vec<Service>,
    pub messages: Vec<ProtoMessage>,
    pub enums: Vec<Enum>,
    pub filename: String,
}

/// A file the indexer can process, whole.
pub open spec fn file_wf(f: FileDescriptor) -> bool {
    &&& forall|si: int|
        0 <= si < f.services@.len() ==> service_wf(f, #[trigger] f.services@[si], si as i32)
    &&& forall|mi: int|
        0 <= mi < f.messages@.len() ==> message_wf(
            #[trigger] f.messages@[mi],
            f,
            seq![MESSAGE_TYPE_TAG, mi as i32],
        )
    &&& forall|ei: int|
        0 <= ei < f.enums@.len() ==> location_ok(&f, #[trigger] enum_path_of(ei))
}

/// The structural path of top-level enum `ei` in a file.
pub open spec fn enum_path_of(ei: int) -> Seq<i32> {
    seq![ENUM_TYPE_TAG, ei as i32]
}

/// The graph after indexing one file: every service recorded in order, then
/// every top-level message subtree.
pub open spec fn file_graph(
    g: Seq<UsageEntryView>,
    f: FileDescriptor,
    pkgs: Seq<Seq<char>>,
) -> Seq<UsageEntryView> {
    apply_edges(
        services_graph(g, f.services@, f.package@, pkgs),
        messages_delta(f.messages@, pkgs, f.package@, Seq::empty()),
    )
}

/// The graph after indexing a list of files in order, starting empty.
pub open spec fn files_graph(
    files: Seq<FileDescriptor>,
    pkgs: Seq<Seq<char>>,
) -> Seq<UsageEntryView>
    decreases files.len(),
{
    if files.len() == 0 {
        Seq::empty()
    } else {
        file_graph(files_graph(files.drop_last(), pkgs), files.last(), pkgs)
    }
}

pub proof fn lemma_file_graph_monotone(
    g: Seq<UsageEntryView>,
    f: FileDescriptor,
    pkgs: Seq<Seq<char>>,
)
    ensures
        crate::graph::graph_monotone(g, file_graph(g, f, pkgs)),
{
    let g1 = services_graph(g, f.services@, f.package@, pkgs);
    lemma_services_graph_monotone(g, f.services@, f.package@, pkgs);
    lemma_apply_edges_monotone(
        g1,
        messages_delta(f.messages@, pkgs, f.package@, Seq::empty()),
    );
    crate::graph::lemma_graph_monotone_trans(g, g1, file_graph(g, f, pkgs));
}

/// The rendered file carries exactly what it declares.
pub open spec fn file_built_ok(
    t: ProtoFileDescriptorTemplate,
    f: FileDescriptor,
    pkgs: Seq<Seq<char>>,
) -> bool {
    &&& t.filename@ == f.name@
    &&& t.services@.len() == f.services@.len()
    &&& forall|si: int|
        0 <= si < f.services@.len() ==> service_built_ok(
            #[trigger] t.services@[si],
            f,
            f.services@[si],
            si as i32,
            f.package@,
            pkgs,
        )
    &&& t.messages@.len() == f.messages@.len()
    &&& forall|mi: int|
        0 <= mi < f.messages@.len() ==> message_built_ok(
            #[trigger] t.messages@[mi],
            f,
            f.messages@[mi],
            seq![MESSAGE_TYPE_TAG, mi as i32],
            pkgs,
            f.package@,
            Seq::empty(),
        )
    &&& t.enums@.len() == f.enums@.len()
    &&& forall|ei: int|
        0 <= ei < f.enums@.len() ==> enum_built_ok(
            &(#[trigger] t.enums@[ei]),
            &f,
            &f.enums@[ei],
            seq![ENUM_TYPE_TAG, ei as i32],
            pkgs,
            f.package@,
            Seq::empty(),
        )
}

impl ProtoFileDescriptorTemplate {
    /// Index one schema file: record services and their methods, then walk
    /// every top-level message subtree, then render the enums.
    pub fn from_descriptor(
        descriptor: &FileDescriptor,
        packages: &Vec<String>,
        symbol_usages: &mut SymbolUsages,
    ) -> (r: Result<ProtoFileDescriptorTemplate, PreprocessError>)
        ensures
            (r is Ok) == file_wf(*descriptor),
            crate::graph::graph_monotone(old(symbol_usages)@, final(symbol_usages)@),
            r is Ok ==> file_built_ok(r->Ok_0, *descriptor, string_views(packages@))
                && final(symbol_usages)@ == file_graph(
                old(symbol_usages)@,
                *descriptor,
                string_views(packages@),
            ),
    {
        let ghost f = *descriptor;
        let ghost pkgs = string_views(packages@);
        let ghost g0 = old(symbol_usages)@;

        let mut services: Vec<Service> = Vec::new();
        let sn = descriptor.services.len();
        let mut si: usize = 0;
        proof {
            assert(f.services@.take(0) =~= Seq::<ServiceDescriptor>::empty());
        }
        while si < sn
            invariant
                f == *descriptor,
                pkgs == string_views(packages@),
                g0 == old(symbol_usages)@,
                sn == f.services@.len(),
                0 <= si <= sn,
                services@.len() == si,
                forall|s2: int|
                    0 <= s2 < si ==> service_built_ok(
                        #[trigger] services@[s2],
                        f,
                        f.services@[s2],
                        s2 as i32,
                        f.package@,
                        pkgs,
                    ),
                forall|s2: int|
                    0 <= s2 < si ==> service_wf(f, #[trigger] f.services@[s2], s2 as i32),
                symbol_usages@ == services_graph(
                    g0,
                    f.services@.take(si as int),
                    f.package@,
                    pkgs,
                ),
            decreases sn - si,
        {
            let si32: i32 = #[verifier::truncate] (si as i32);
            let ghost g_pre = symbol_usages@;
            match Service::from_descriptor(
                descriptor,
                &descriptor.services[si],
                si32,
                packages,
                symbol_usages,
            ) {
                Ok(sv) => {
                    services.push(sv);
                    proof {
                        lemma_services_graph_snoc(
                            g0,
                            f.services@,
                            si as int,
                            f.package@,
                            pkgs,
                        );
                    }
                },
                Err(e) => {
                    proof {
                        if file_wf(f) {
                            assert(service_wf(f, f.services@[si as int], si as i32));
                        }
                        lemma_services_graph_monotone(
                            g0,
                            f.services@.take(si as int),
                            f.package@,
                            pkgs,
                        );
                        crate::graph::lemma_graph_monotone_trans(
                            g0,
                            g_pre,
                            symbol_usages@,
                        );
                    }
                    return Err(e);
                },
            }
            si = si + 1;
        }
        proof {
            assert(f.services@.take(sn as int) =~= f.services@);
        }

        let ghost g_services = symbol_usages@;
        let mut messages: Vec<ProtoMessage> = Vec::new();
        let mn = descriptor.messages.len();
        let mut mi: usize = 0;
        proof {
            assert(f.messages@.take(0) =~= Seq::<MessageDescriptor>::empty());
            assert(messages_delta(
                f.messages@.take(0),
                pkgs,
                f.package@,
                Seq::empty(),
            ) =~= Seq::<(SymbolLinkView, BacklinkView)>::empty());
        }
        while mi < mn
            invariant
                f == *descriptor,
                pkgs == string_views(packages@),
                g0 == old(symbol_usages)@,
                g_services == services_graph(g0, f.services@, f.package@, pkgs),
                mn == f.messages@.len(),
                0 <= mi <= mn,
                messages@.len() == mi,
                forall|m2: int|
                    0 <= m2 < mi ==> message_built_ok(
                        #[trigger] messages@[m2],
                        f,
                        f.messages@[m2],
                        seq![MESSAGE_TYPE_TAG, m2 as i32],
                        pkgs,
                        f.package@,
                        Seq::empty(),
                    ),
                forall|m2: int|
                    0 <= m2 < mi ==> message_wf(
                        #[trigger] f.messages@[m2],
                        f,
                        seq![MESSAGE_TYPE_TAG, m2 as i32],
                    ),
                symbol_usages@ == apply_edges(
                    g_services,
                    messages_delta(
                        f.messages@.take(mi as int),
                        pkgs,
                        f.package@,
                        Seq::empty(),
                    ),
                ),
            decreases mn - mi,
        {
            let mut mpath: Vec<i32> = Vec::new();
            mpath.push(MESSAGE_TYPE_TAG);
            let mi32: i32 = #[verifier::truncate] (mi as i32);
            mpath.push(mi32);
            proof {
                assert(mpath@ =~= seq![MESSAGE_TYPE_TAG, mi as i32]);
            }
            let parent_messages: Vec<String> = Vec::new();
            proof {
                assert(parent_messages@.map_values(|s: String| s@) =~= Seq::<
                    Seq<char>,
                >::empty());
            }
            let ghost g_pre = symbol_usages@;
            match ProtoMessage::from_descriptor(
                descriptor,
                &descriptor.messages[mi],
                &mpath,
                parent_messages,
                packages,
                descriptor.package.clone(),
                symbol_usages,
            ) {
                Ok(pm) => {
                    messages.push(pm);
                    proof {
                        lemma_messages_delta_snoc(
                            f.messages@,
                            mi as int,
                            pkgs,
                            f.package@,
                            Seq::empty(),
                        );
                        lemma_apply_edges_concat(
                            g_services,
                            messages_delta(
                                f.messages@.take(mi as int),
                                pkgs,
                                f.package@,
                                Seq::empty(),
                            ),
                            message_delta(
                                f.messages@[mi as int],
                                pkgs,
                                f.package@,
                                Seq::empty(),
                            ),
                        );
                        assert(messages_delta(
                            f.messages@.take(mi as int),
                            pkgs,
                            f.package@,
                            Seq::empty(),
                        ) + message_delta(
                            f.messages@[mi as int],
                            pkgs,
                            f.package@,
                            Seq::empty(),
                        ) =~= messages_delta(
                            f.messages@.take(mi + 1),
                            pkgs,
                            f.package@,
                            Seq::empty(),
                        ));
                    }
                },
                Err(e) => {
                    proof {
                        if file_wf(f) {
                            assert(message_wf(
                                f.messages@[mi as int],
                                f,
                                seq![MESSAGE_TYPE_TAG, mi as i32],
                            ));
                        }
                        lemma_services_graph_monotone(
                            g0,
                            f.services@,
                            f.package@,
                            pkgs,
                        );
                        lemma_apply_edges_monotone(
                            g_services,
                            messages_delta(
                                f.messages@.take(mi as int),
                                pkgs,
                                f.package@,
                                Seq::empty(),
                            ),
                        );
                        crate::graph::lemma_graph_monotone_trans(g0, g_services, g_pre);
                        crate::graph::lemma_graph_monotone_trans(
                            g0,
                            g_pre,
                            symbol_usages@,
                        );
                    }
                    return Err(e);
                },
            }
            mi = mi + 1;
        }
        proof {
            assert(f.messages@.take(mn as int) =~= f.messages@);
        }

        let mut enums: Vec<Enum> = Vec::new();
        let en = descriptor.enums.len();
        let mut ei: usize = 0;
        while ei < en
            invariant
                f == *descriptor,
                pkgs == string_views(packages@),
                g0 == old(symbol_usages)@,
                g_services == services_graph(g0, f.services@, f.package@, pkgs),
                symbol_usages@ == apply_edges(
                    g_services,
                    messages_delta(f.messages@, pkgs, f.package@, Seq::empty()),
                ),
                en == f.enums@.len(),
                0 <= ei <= en,
                enums@.len() == ei,
                forall|e2: int|
                    0 <= e2 < ei ==> enum_built_ok(
                        &(#[trigger] enums@[e2]),
                        &f,
                        &f.enums@[e2],
                        seq![ENUM_TYPE_TAG, e2 as i32],
                        pkgs,
                        f.package@,
                        Seq::empty(),
                    ),
                forall|e2: int|
                    0 <= e2 < ei ==> location_ok(&f, #[trigger] enum_path_of(e2)),
            decreases en - ei,
        {
            let mut epath: Vec<i32> = Vec::new();
            epath.push(ENUM_TYPE_TAG);
            let ei32: i32 = #[verifier::truncate] (ei as i32);
            epath.push(ei32);
            proof {
                assert(epath@ =~= seq![ENUM_TYPE_TAG, ei as i32]);
            }
            let parent_messages: Vec<String> = Vec::new();
            proof {
                assert(parent_messages@.map_values(|s: String| s@) =~= Seq::<
                    Seq<char>,
                >::empty());
            }
            match Enum::from_descriptor(
                descriptor,
                &descriptor.enums[ei],
                &epath,
                packages,
                descriptor.package.clone(),
                parent_messages,
            ) {
                Ok(e) => {
                    enums.push(e);
                },
                Err(e) => {
                    proof {
                        if file_wf(f) {
                            assert(location_ok(&f, enum_path_of(ei as int)));
                        }
                        assert(enum_path_of(ei as int) =~= seq![ENUM_TYPE_TAG, ei as i32]);
                        lemma_file_graph_monotone(g0, f, pkgs);
                    }
                    return Err(e);
                },
            }
            ei = ei + 1;
        }
        proof {
            lemma_file_graph_monotone(g0, f, pkgs);
        }
        Ok(
            ProtoFileDescriptorTemplate {
                services,
                messages,
                enums,
                filename: descriptor.name.clone(),
            },
        )
    }
}

/// All files of one package, grouped for rendering as one namespace page.
#[derive(Debug)]
pub struct ProtoNamespaceTemplate {
    pub files: Vec<ProtoFileDescriptorTemplate>,
}

impl Default for ProtoNamespaceTemplate {
    /// A namespace starts with no files.
    fn default() -> (r: ProtoNamespaceTemplate)
        ensures
            r.files@.len() == 0,
    {
        ProtoNamespaceTemplate { files: Vec::new() }
    }
}

impl ProtoNamespaceTemplate {
    /// Record one more rendered file under this namespace.
    pub fn add_file(&mut self, file: ProtoFileDescriptorTemplate)
        ensures
            final(self).files@ == old(self).files@.push(file),
    {
        self.files.push(file);
    }
}

// ---------------------------------------------------------------------------
// Attachment pass
// ---------------------------------------------------------------------------

/// The backlinks an entity ends up with: the edges the graph recorded for
/// its identity, or its previous (empty) list when the graph never saw it.
pub open spec fn backlinks_assigned(
    nb: Backlinks,
    ob: Backlinks,
    l: SymbolLinkView,
    g: Seq<UsageEntryView>,
) -> bool {
    match crate::graph::find_entry(g, l) {
        Some(i) => nb.links@.map_values(|b: Backlink| b@) == g[i].1,
        None => nb.links@ == ob.links@,
    }
}

pub open spec fn enum_attached(a: Enum, b: Enum, g: Seq<UsageEntryView>) -> bool {
    &&& b.name == a.name
    &&& b.comments == a.comments
    &&& b.source == a.source
    &&& b.source_url == a.source_url
    &&& b.values == a.values
    &&& b.namespace == a.namespace
    &&& b.self_link == a.self_link
    &&& backlinks_assigned(b.backlinks, a.backlinks, a.self_link@, g)
}

pub open spec fn method_attached(a: Method, b: Method, g: Seq<UsageEntryView>) -> bool {
    &&& b.name == a.name
    &&& b.request_message == a.request_message
    &&& b.response_message == a.response_message
    &&& b.comments == a.comments
    &&& b.source == a.source
    &&& b.source_url == a.source_url
    &&& b.deprecated == a.deprecated
    &&& b.self_link == a.self_link
    &&& backlinks_assigned(b.backlinks, a.backlinks, a.self_link@, g)
}

pub open spec fn service_attached(a: Service, b: Service, g: Seq<UsageEntryView>) -> bool {
    &&& b.name == a.name
    &&& b.comments == a.comments
    &&& b.source == a.source
    &&& b.source_url == a.source_url
    &&& b.self_link == a.self_link
    &&& backlinks_assigned(b.backlinks, a.backlinks, a.self_link@, g)
    &&& b.methods@.len() == a.methods@.len()
    &&& forall|i: int|
        0 <= i < a.methods@.len() ==> method_attached(
            #[trigger] a.methods@[i],
            b.methods@[i],
            g,
        )
}

pub open spec fn message_attached(a: ProtoMessage, b: ProtoMessage, g: Seq<UsageEntryView>) -> bool
    decreases a,
{
    &&& b.name == a.name
    &&& b.comments == a.comments
    &&& b.source == a.source
    &&& b.source_url == a.source_url
    &&& b.fields == a.fields
    &&& b.namespace == a.namespace
    &&& b.deprecated == a.deprecated
    &&& b.self_link == a.self_link
    &&& backlinks_assigned(b.backlinks, a.backlinks, a.self_link@, g)
    &&& b.nested_message@.len() == a.nested_message@.len()
    &&& forall|i: int|
        0 <= i < a.nested_message@.len() ==> message_attached(
            #[trigger] a.nested_message@[i],
            b.nested_message@[i],
            g,
        )
    &&& b.nested_enum@.len() == a.nested_enum@.len()
    &&& forall|i: int|
        0 <= i < a.nested_enum@.len() ==> enum_attached(
            #[trigger] a.nested_enum@[i],
            b.nested_enum@[i],
            g,
        )
}

pub open spec fn file_attached(
    a: ProtoFileDescriptorTemplate,
    b: ProtoFileDescriptorTemplate,
    g: Seq<UsageEntryView>,
) -> bool {
    &&& b.filename == a.filename
    &&& b.services@.len() == a.services@.len()
    &&& forall|i: int|
        0 <= i < a.services@.len() ==> service_attached(
            #[trigger] a.services@[i],
            b.services@[i],
            g,
        )
    &&& b.messages@.len() == a.messages@.len()
    &&& forall|i: int|
        0 <= i < a.messages@.len() ==> message_attached(
            #[trigger] a.messages@[i],
            b.messages@[i],
            g,
        )
    &&& b.enums@.len() == a.enums@.len()
    &&& forall|i: int|
        0 <= i < a.enums@.len() ==> enum_attached(#[trigger] a.enums@[i], b.enums@[i], g)
}

pub open spec fn namespace_attached(
    a: ProtoNamespaceTemplate,
    b: ProtoNamespaceTemplate,
    g: Seq<UsageEntryView>,
) -> bool {
    &&& b.files@.len() == a.files@.len()
    &&& forall|i: int|
        0 <= i < a.files@.len() ==> file_attached(#[trigger] a.files@[i], b.files@[i], g)
}

/// Look up the edges recorded for one identity and clone them into the
/// entity's backlink list.
fn assigned_backlinks(
    self_link: &SymbolLink,
    current: Backlinks,
    symbol_usages: &SymbolUsages,
) -> (r: Backlinks)
    ensures
        backlinks_assigned(r, current, self_link@, symbol_usages@),
{
    match symbol_usages.get_edges(self_link) {
        Some(edges) => {
            let mut v: Vec<Backlink> = Vec::new();
            let n = edges.len();
            let mut i: usize = 0;
            while i < n
                invariant
                    n == edges@.len(),
                    0 <= i <= n,
                    v@.len() == i,
                    forall|k: int| 0 <= k < i ==> (#[trigger] v@[k])@ == edges@[k]@,
                decreases n - i,
            {
                v.push(edges[i].duplicate());
                i = i + 1;
            }
            proof {
                assert(v@.map_values(|b: Backlink| b@) =~= edges@.map_values(
                    |b: Backlink| b@,
                ));
            }
            Backlinks::new(v)
        },
        None => current,
    }
}

fn attach_enum(e: Enum, symbol_usages: &SymbolUsages) -> (r: Enum)
    ensures
        enum_attached(e, r, symbol_usages@),
{
    let Enum { name, comments, source, source_url, values, namespace, backlinks, self_link } =
        e;
    let backlinks = assigned_backlinks(&self_link, backlinks, symbol_usages);
    Enum { name, comments, source, source_url, values, namespace, backlinks, self_link }
}

fn attach_method(m: Method, symbol_usages: &SymbolUsages) -> (r: Method)
    ensures
        method_attached(m, r, symbol_usages@),
{
    let Method {
        name,
        request_message,
        response_message,
        comments,
        source,
        source_url,
        deprecated,
        self_link,
        backlinks,
    } = m;
    let backlinks = assigned_backlinks(&self_link, backlinks, symbol_usages);
    Method {
        name,
        request_message,
        response_message,
        comments,
        source,
        source_url,
        deprecated,
        self_link,
        backlinks,
    }
}

fn attach_service(s: Service, symbol_usages: &SymbolUsages) -> (r: Service)
    ensures
        service_attached(s, r, symbol_usages@),
{
    let Service { name, methods, comments, source, source_url, self_link, backlinks } = s;
    let backlinks = assigned_backlinks(&self_link, backlinks, symbol_usages);
    let ghost ms0 = methods@;
    let mut methods = methods;
    let total = methods.len();
    let mut out: Vec<Method> = Vec::new();
    let mut j: usize = 0;
    while methods.len() > 0
        invariant
            ms0.len() == total,
            0 <= j <= ms0.len(),
            methods@ == ms0.skip(j as int),
            out@.len() == j,
            forall|k: int|
                0 <= k < j ==> method_attached(#[trigger] ms0[k], out@[k], symbol_usages@),
        decreases methods@.len(),
    {
        proof {
            assert(j < ms0.len());
            assert(ms0.skip(j as int)[0] == ms0[j as int]);
        }
        let m = methods.remove(0);
        out.push(attach_method(m, symbol_usages));
        proof {
            assert(methods@ =~= ms0.skip(j + 1));
        }
        j = j + 1;
    }
    Service { name, methods: out, comments, source, source_url, self_link, backlinks }
}

fn attach_message(m: ProtoMessage, symbol_usages: &SymbolUsages) -> (r: ProtoMessage)
    ensures
        message_attached(m, r, symbol_usages@),
    decreases m,
{
    let ghost m0 = m;
    let ProtoMessage {
        name,
        comments,
        source,
        source_url,
        nested_message,
        nested_enum,
        fields,
        namespace,
        deprecated,
        self_link,
        backlinks,
    } = m;
    let backlinks = assigned_backlinks(&self_link, backlinks, symbol_usages);

    let ghost nm0 = nested_message@;
    let mut nested_message = nested_message;
    let total = nested_message.len();
    let mut out_msgs: Vec<ProtoMessage> = Vec::new();
    let mut j: usize = 0;
    #[verifier::loop_isolation(false)]
    while nested_message.len() > 0
        invariant
            nm0.len() == total,
            nm0 == m0.nested_message@,
            0 <= j <= nm0.len(),
            nested_message@ == nm0.skip(j as int),
            out_msgs@.len() == j,
            forall|k: int|
                0 <= k < j ==> message_attached(
                    #[trigger] nm0[k],
                    out_msgs@[k],
                    symbol_usages@,
                ),
        decreases nested_message@.len(),
    {
        proof {
            assert(j < nm0.len());
            assert(nm0.skip(j as int)[0] == nm0[j as int]);
        }
        let c = nested_message.remove(0);
        proof {
            assert(c == nm0[j as int]);
            assert(decreases_to!(m0 => m0.nested_message));
            assert(decreases_to!(m0.nested_message => m0.nested_message@));
            assert(decreases_to!(m0.nested_message@ => m0.nested_message@[j as int]));
            assert(decreases_to!(m0 => m0.nested_message@[j as int]));
        }
        out_msgs.push(attach_message(c, symbol_usages));
        proof {
            assert(nested_message@ =~= nm0.skip(j + 1));
        }
        j = j + 1;
    }

    let ghost ne0 = nested_enum@;
    let mut nested_enum = nested_enum;
    let total2 = nested_enum.len();
    let mut out_enums: Vec<Enum> = Vec::new();
    let mut j2: usize = 0;
    while nested_enum.len() > 0
        invariant
            ne0.len() == total2,
            0 <= j2 <= ne0.len(),
            nested_enum@ == ne0.skip(j2 as int),
            out_enums@.len() == j2,
            forall|k: int|
                0 <= k < j2 ==> enum_attached(
                    #[trigger] ne0[k],
                    out_enums@[k],
                    symbol_usages@,
                ),
        decreases nested_enum@.len(),
    {
        proof {
            assert(j2 < ne0.len());
            assert(ne0.skip(j2 as int)[0] == ne0[j2 as int]);
        }
        let e = nested_enum.remove(0);
        out_enums.push(attach_enum(e, symbol_usages));
        proof {
            assert(nested_enum@ =~= ne0.skip(j2 + 1));
        }
        j2 = j2 + 1;
    }

    ProtoMessage {
        name,
        comments,
        source,
        source_url,
        nested_message: out_msgs,
        nested_enum: out_enums,
        fields,
        namespace,
        deprecated,
        self_link,
        backlinks,
    }
}

fn attach_file(
    t: ProtoFileDescriptorTemplate,
    symbol_usages: &SymbolUsages,
) -> (r: ProtoFileDescriptorTemplate)
    ensures
        file_attached(t, r, symbol_usages@),
{
    let ProtoFileDescriptorTemplate { services, messages, enums, filename } = t;

    let ghost ss0 = services@;
    let mut services = services;
    let total = services.len();
    let mut out_services: Vec<Service> = Vec::new();
    let mut j: usize = 0;
    while services.len() > 0
        invariant
            ss0.len() == total,
            0 <= j <= ss0.len(),
            services@ == ss0.skip(j as int),
            out_services@.len() == j,
            forall|k: int|
                0 <= k < j ==> service_attached(
                    #[trigger] ss0[k],
                    out_services@[k],
                    symbol_usages@,
                ),
        decreases services@.len(),
    {
        proof {
            assert(j < ss0.len());
            assert(ss0.skip(j as int)[0] == ss0[j as int]);
        }
        let s = services.remove(0);
        out_services.push(attach_service(s, symbol_usages));
        proof {
            assert(services@ =~= ss0.skip(j + 1));
        }
        j = j + 1;
    }

    let ghost ms0 = messages@;
    let mut messages = messages;
    let total2 = messages.len();
    let mut out_messages: Vec<ProtoMessage> = Vec::new();
    let mut j2: usize = 0;
    while messages.len() > 0
        invariant
            ms0.len() == total2,
            0 <= j2 <= ms0.len(),
            messages@ == ms0.skip(j2 as int),
            out_messages@.len() == j2,
            forall|k: int|
                0 <= k < j2 ==> message_attached(
                    #[trigger] ms0[k],
                    out_messages@[k],
                    symbol_usages@,
                ),
        decreases messages@.len(),
    {
        proof {
            assert(j2 < ms0.len());
            assert(ms0.skip(j2 as int)[0] == ms0[j2 as int]);
        }
        let m = messages.remove(0);
        out_messages.push(attach_message(m, symbol_usages));
        proof {
            assert(messages@ =~= ms0.skip(j2 + 1));
        }
        j2 = j2 + 1;
    }

    let ghost es0 = enums@;
    let mut enums = enums;
    let total3 = enums.len();
    let mut out_enums: Vec<Enum> = Vec::new();
    let mut j3: usize = 0;
    while enums.len() > 0
        invariant
            es0.len() == total3,
            0 <= j3 <= es0.len(),
            enums@ == es0.skip(j3 as int),
            out_enums@.len() == j3,
            forall|k: int|
                0 <= k < j3 ==> enum_attached(
                    #[trigger] es0[k],
                    out_enums@[k],
                    symbol_usages@,
                ),
        decreases enums@.len(),
    {
        proof {
            assert(j3 < es0.len());
            assert(es0.skip(j3 as int)[0] == es0[j3 as int]);
        }
        let e = enums.remove(0);
        out_enums.push(attach_enum(e, symbol_usages));
        proof {
            assert(enums@ =~= es0.skip(j3 + 1));
        }
        j3 = j3 + 1;
    }

    ProtoFileDescriptorTemplate {
        services: out_services,
        messages: out_messages,
        enums: out_enums,
        filename,
    }
}

fn attach_namespace(
    ns: ProtoNamespaceTemplate,
    symbol_usages: &SymbolUsages,
) -> (r: ProtoNamespaceTemplate)
    ensures
        namespace_attached(ns, r, symbol_usages@),
{
    let ProtoNamespaceTemplate { files } = ns;
    let ghost fs0 = files@;
    let mut files = files;
    let total = files.len();
    let mut out: Vec<ProtoFileDescriptorTemplate> = Vec::new();
    let mut j: usize = 0;
    while files.len() > 0
        invariant
            fs0.len() == total,
            0 <= j <= fs0.len(),
            files@ == fs0.skip(j as int),
            out@.len() == j,
            forall|k: int|
                0 <= k < j ==> file_attached(#[trigger] fs0[k], out@[k], symbol_usages@),
        decreases files@.len(),
    {
        proof {
            assert(j < fs0.len());
            assert(fs0.skip(j as int)[0] == fs0[j as int]);
        }
        let f = files.remove(0);
        out.push(attach_file(f, symbol_usages));
        proof {
            assert(files@ =~= fs0.skip(j + 1));
        }
        j = j + 1;
    }
    ProtoNamespaceTemplate { files: out }
}

/// The attachment pass: after indexing and all page rewrites, walk the whole
/// entity tree once and give every message, enum, service and method the
/// backlink list the graph accumulated for its identity.
pub fn assign_backlinks(
    document: &mut Vec<(String, ProtoNamespaceTemplate)>,
    symbol_usages: SymbolUsages,
)
    ensures
        final(document)@.len() == old(document)@.len(),
        forall|i: int|
            0 <= i < old(document)@.len() ==> (#[trigger] final(document)@[i]).0 == old(
                document,
            )@[i].0 && namespace_attached(
                old(document)@[i].1,
                final(document)@[i].1,
                symbol_usages@,
            ),
{
    let ghost doc0 = document@;
    let total = document.len();
    let mut out: Vec<(String, ProtoNamespaceTemplate)> = Vec::new();
    let mut j: usize = 0;
    while document.len() > 0
        invariant
            doc0.len() == total,
            doc0 == old(document)@,
            0 <= j <= doc0.len(),
            document@ == doc0.skip(j as int),
            out@.len() == j,
            forall|k: int|
                0 <= k < j ==> (#[trigger] out@[k]).0 == doc0[k].0 && namespace_attached(
                    doc0[k].1,
                    out@[k].1,
                    symbol_usages@,
                ),
        decreases document@.len(),
    {
        proof {
            assert(j < doc0.len());
            assert(doc0.skip(j as int)[0] == doc0[j as int]);
        }
        let (key, ns) = document.remove(0);
        out.push((key, attach_namespace(ns, &symbol_usages)));
        proof {
            assert(document@ =~= doc0.skip(j + 1));
        }
        j = j + 1;
    }
    *document = out;
}

// ---------------------------------------------------------------------------
// Entity accessors
// ---------------------------------------------------------------------------

impl ProtoMessage {
    /// This message's symbol identity.
    pub fn symbol_link(&self) -> (r: &SymbolLink)
        ensures
            *r == self.self_link,
    {
        &self.self_link
    }

    /// This message's canonical dotted name.
    pub fn fqsl(&self) -> (r: String)
        ensures
            r@ == crate::links::fqsl_of(self.self_link@),
    {
        self.self_link.fqsl()
    }

    pub fn set_backlinks(&mut self, backlinks: Backlinks)
        ensures
            *final(self) == (ProtoMessage { backlinks, ..*old(self) }),
    {
        self.backlinks = backlinks
    }

    pub fn set_source_url(&mut self, source_url: String)
        ensures
            *final(self) == (ProtoMessage { source_url: Some(source_url), ..*old(self) }),
    {
        self.source_url = Some(source_url)
    }
}

impl Enum {
    /// This enum's symbol identity.
    pub fn symbol_link(&self) -> (r: &SymbolLink)
        ensures
            *r == self.self_link,
    {
        &self.self_link
    }

    pub fn set_backlinks(&mut self, backlinks: Backlinks)
        ensures
            *final(self) == (Enum { backlinks, ..*old(self) }),
    {
        self.backlinks = backlinks
    }

    pub fn set_source_url(&mut self, source_url: String)
        ensures
            *final(self) == (Enum { source_url: Some(source_url), ..*old(self) }),
    {
        self.source_url = Some(source_url)
    }
}

impl Service {
    /// This service's symbol identity.
    pub fn symbol_link(&self) -> (r: &SymbolLink)
        ensures
            *r == self.self_link,
    {
        &self.self_link
    }

    pub fn set_backlinks(&mut self, backlinks: Backlinks)
        ensures
            *final(self) == (Service { backlinks, ..*old(self) }),
    {
        self.backlinks = backlinks
    }

    pub fn set_source_url(&mut self, source_url: String)
        ensures
            *final(self) == (Service { source_url: Some(source_url), ..*old(self) }),
    {
        self.source_url = Some(source_url)
    }
}

impl Method {
    /// This method's symbol identity.
    pub fn symbol_link(&self) -> (r: &SymbolLink)
        ensures
            *r == self.self_link,
    {
        &self.self_link
    }

    pub fn set_backlinks(&mut self, backlinks: Backlinks)
        ensures
            *final(self) == (Method { backlinks, ..*old(self) }),
    {
        self.backlinks = backlinks
    }

    pub fn set_source_url(&mut self, source_url: String)
        ensures
            *final(self) == (Method { source_url: Some(source_url), ..*old(self) }),
    {
        self.source_url = Some(source_url)
    }
}

// ---------------------------------------------------------------------------
// Source-url pass
// ---------------------------------------------------------------------------

pub open spec fn enum_urled(a: Enum, b: Enum, url: Seq<char>) -> bool {
    &&& b.name == a.name
    &&& b.comments == a.comments
    &&& b.source == a.source
    &&& b.values == a.values
    &&& b.namespace == a.namespace
    &&& b.self_link == a.self_link
    &&& b.backlinks.links@ == a.backlinks.links@
    &&& b.source_url is Some && b.source_url->Some_0@ == url
}

pub open spec fn method_urled(a: Method, b: Method, url: Seq<char>) -> bool {
    &&& b.name == a.name
    &&& b.request_message == a.request_message
    &&& b.response_message == a.response_message
    &&& b.comments == a.comments
    &&& b.source == a.source
    &&& b.deprecated == a.deprecated
    &&& b.self_link == a.self_link
    &&& b.backlinks.links@ == a.backlinks.links@
    &&& b.source_url is Some && b.source_url->Some_0@ == url
}

pub open spec fn service_urled(a: Service, b: Service, url: Seq<char>) -> bool {
    &&& b.name == a.name
    &&& b.comments == a.comments
    &&& b.source == a.source
    &&& b.self_link == a.self_link
    &&& b.backlinks.links@ == a.backlinks.links@
    &&& b.source_url is Some && b.source_url->Some_0@ == url
    &&& b.methods@.len() == a.methods@.len()
    &&& forall|i: int|
        0 <= i < a.methods@.len() ==> method_urled(
            #[trigger] a.methods@[i],
            b.methods@[i],
            url,
        )
}

pub open spec fn message_urled(a: ProtoMessage, b: ProtoMessage, url: Seq<char>) -> bool
    decreases a,
{
    &&& b.name == a.name
    &&& b.comments == a.comments
    &&& b.source == a.source
    &&& b.fields == a.fields
    &&& b.namespace == a.namespace
    &&& b.deprecated == a.deprecated
    &&& b.self_link == a.self_link
    &&& b.backlinks.links@ == a.backlinks.links@
    &&& b.source_url is Some && b.source_url->Some_0@ == url
    &&& b.nested_message@.len() == a.nested_message@.len()
    &&& forall|i: int|
        0 <= i < a.nested_message@.len() ==> message_urled(
            #[trigger] a.nested_message@[i],
            b.nested_message@[i],
            url,
        )
    &&& b.nested_enum@.len() == a.nested_enum@.len()
    &&& forall|i: int|
        0 <= i < a.nested_enum@.len() ==> enum_urled(
            #[trigger] a.nested_enum@[i],
            b.nested_enum@[i],
            url,
        )
}

pub open spec fn file_urled(
    a: ProtoFileDescriptorTemplate,
    b: ProtoFileDescriptorTemplate,
    url: Seq<char>,
) -> bool {
    &&& b.filename == a.filename
    &&& b.services@.len() == a.services@.len()
    &&& forall|i: int|
        0 <= i < a.services@.len() ==> service_urled(
            #[trigger] a.services@[i],
            b.services@[i],
            url,
        )
    &&& b.messages@.len() == a.messages@.len()
    &&& forall|i: int|
        0 <= i < a.messages@.len() ==> message_urled(
            #[trigger] a.messages@[i],
            b.messages@[i],
            url,
        )
    &&& b.enums@.len() == a.enums@.len()
    &&& forall|i: int|
        0 <= i < a.enums@.len() ==> enum_urled(#[trigger] a.enums@[i], b.enums@[i], url)
}

pub open spec fn namespace_urled(
    a: ProtoNamespaceTemplate,
    b: ProtoNamespaceTemplate,
    url: Seq<char>,
) -> bool {
    &&& b.files@.len() == a.files@.len()
    &&& forall|i: int|
        0 <= i < a.files@.len() ==> file_urled(#[trigger] a.files@[i], b.files@[i], url)
}

fn url_enum(e: Enum, url: &String) -> (r: Enum)
    ensures
        enum_urled(e, r, url@),
{
    let Enum { name, comments, source, source_url: _, values, namespace, backlinks, self_link } =
        e;
    Enum {
        name,
        comments,
        source,
        source_url: Some(url.clone()),
        values,
        namespace,
        backlinks,
        self_link,
    }
}

fn url_method(m: Method, url: &String) -> (r: Method)
    ensures
        method_urled(m, r, url@),
{
    let Method {
        name,
        request_message,
        response_message,
        comments,
        source,
        source_url: _,
        deprecated,
        self_link,
        backlinks,
    } = m;
    Method {
        name,
        request_message,
        response_message,
        comments,
        source,
        source_url: Some(url.clone()),
        deprecated,
        self_link,
        backlinks,
    }
}

fn url_service(s: Service, url: &String) -> (r: Service)
    ensures
        service_urled(s, r, url@),
{
    let Service { name, methods, comments, source, source_url: _, self_link, backlinks } =
        s;
    let ghost ms0 = methods@;
    let mut methods = methods;
    let total = methods.len();
    let mut out: Vec<Method> = Vec::new();
    let mut j: usize = 0;
    while methods.len() > 0
        invariant
            ms0.len() == total,
            0 <= j <= ms0.len(),
            methods@ == ms0.skip(j as int),
            out@.len() == j,
            forall|k: int| 0 <= k < j ==> method_urled(#[trigger] ms0[k], out@[k], url@),
        decreases methods@.len(),
    {
        proof {
            assert(j < ms0.len());
            assert(ms0.skip(j as int)[0] == ms0[j as int]);
        }
        let m = methods.remove(0);
        out.push(url_method(m, url));
        proof {
            assert(methods@ =~= ms0.skip(j + 1));
        }
        j = j + 1;
    }
    Service {
        name,
        methods: out,
        comments,
        source,
        source_url: Some(url.clone()),
        self_link,
        backlinks,
    }
}

fn url_message(m: ProtoMessage, url: &String) -> (r: ProtoMessage)
    ensures
        message_urled(m, r, url@),
    decreases m,
{
    let ghost m0 = m;
    let ProtoMessage {
        name,
        comments,
        source,
        source_url: _,
        nested_message,
        nested_enum,
        fields,
        namespace,
        deprecated,
        self_link,
        backlinks,
    } = m;

    let ghost nm0 = nested_message@;
    let mut nested_message = nested_message;
    let total = nested_message.len();
    let mut out_msgs: Vec<ProtoMessage> = Vec::new();
    let mut j: usize = 0;
    #[verifier::loop_isolation(false)]
    while nested_message.len() > 0
        invariant
            nm0.len() == total,
            nm0 == m0.nested_message@,
            0 <= j <= nm0.len(),
            nested_message@ == nm0.skip(j as int),
            out_msgs@.len() == j,
            forall|k: int| 0 <= k < j ==> message_urled(#[trigger] nm0[k], out_msgs@[k], url@),
        decreases nested_message@.len(),
    {
        proof {
            assert(j < nm0.len());
            assert(nm0.skip(j as int)[0] == nm0[j as int]);
        }
        let c = nested_message.remove(0);
        proof {
            assert(c == nm0[j as int]);
            assert(decreases_to!(m0 => m0.nested_message));
            assert(decreases_to!(m0.nested_message => m0.nested_message@));
            assert(decreases_to!(m0.nested_message@ => m0.nested_message@[j as int]));
            assert(decreases_to!(m0 => m0.nested_message@[j as int]));
        }
        out_msgs.push(url_message(c, url));
        proof {
            assert(nested_message@ =~= nm0.skip(j + 1));
        }
        j = j + 1;
    }

    let ghost ne0 = nested_enum@;
    let mut nested_enum = nested_enum;
    let total2 = nested_enum.len();
    let mut out_enums: Vec<Enum> = Vec::new();
    let mut j2: usize = 0;
    while nested_enum.len() > 0
        invariant
            ne0.len() == total2,
            0 <= j2 <= ne0.len(),
            nested_enum@ == ne0.skip(j2 as int),
            out_enums@.len() == j2,
            forall|k: int| 0 <= k < j2 ==> enum_urled(#[trigger] ne0[k], out_enums@[k], url@),
        decreases nested_enum@.len(),
    {
        proof {
            assert(j2 < ne0.len());
            assert(ne0.skip(j2 as int)[0] == ne0[j2 as int]);
        }
        let e = nested_enum.remove(0);
        out_enums.push(url_enum(e, url));
        proof {
            assert(nested_enum@ =~= ne0.skip(j2 + 1));
        }
        j2 = j2 + 1;
    }

    ProtoMessage {
        name,
        comments,
        source,
        source_url: Some(url.clone()),
        nested_message: out_msgs,
        nested_enum: out_enums,
        fields,
        namespace,
        deprecated,
        self_link,
        backlinks,
    }
}

fn url_file(t: ProtoFileDescriptorTemplate, url: &String) -> (r: ProtoFileDescriptorTemplate)
    ensures
        file_urled(t, r, url@),
{
    let ProtoFileDescriptorTemplate { services, messages, enums, filename } = t;

    let ghost ss0 = services@;
    let mut services = services;
    let total = services.len();
    let mut out_services: Vec<Service> = Vec::new();
    let mut j: usize = 0;
    while services.len() > 0
        invariant
            ss0.len() == total,
            0 <= j <= ss0.len(),
            services@ == ss0.skip(j as int),
            out_services@.len() == j,
            forall|k: int|
                0 <= k < j ==> service_urled(#[trigger] ss0[k], out_services@[k], url@),
        decreases services@.len(),
    {
        proof {
            assert(j < ss0.len());
            assert(ss0.skip(j as int)[0] == ss0[j as int]);
        }
        let s = services.remove(0);
        out_services.push(url_service(s, url));
        proof {
            assert(services@ =~= ss0.skip(j + 1));
        }
        j = j + 1;
    }

    let ghost ms0 = messages@;
    let mut messages = messages;
    let total2 = messages.len();
    let mut out_messages: Vec<ProtoMessage> = Vec::new();
    let mut j2: usize = 0;
    while messages.len() > 0
        invariant
            ms0.len() == total2,
            0 <= j2 <= ms0.len(),
            messages@ == ms0.skip(j2 as int),
            out_messages@.len() == j2,
            forall|k: int|
                0 <= k < j2 ==> message_urled(#[trigger] ms0[k], out_messages@[k], url@),
        decreases messages@.len(),
    {
        proof {
            assert(j2 < ms0.len());
            assert(ms0.skip(j2 as int)[0] == ms0[j2 as int]);
        }
        let m = messages.remove(0);
        out_messages.push(url_message(m, url));
        proof {
            assert(messages@ =~= ms0.skip(j2 + 1));
        }
        j2 = j2 + 1;
    }

    let ghost es0 = enums@;
    let mut enums = enums;
    let total3 = enums.len();
    let mut out_enums: Vec<Enum> = Vec::new();
    let mut j3: usize = 0;
    while enums.len() > 0
        invariant
            es0.len() == total3,
            0 <= j3 <= es0.len(),
            enums@ == es0.skip(j3 as int),
            out_enums@.len() == j3,
            forall|k: int| 0 <= k < j3 ==> enum_urled(#[trigger] es0[k], out_enums@[k], url@),
        decreases enums@.len(),
    {
        proof {
            assert(j3 < es0.len());
            assert(es0.skip(j3 as int)[0] == es0[j3 as int]);
        }
        let e = enums.remove(0);
        out_enums.push(url_enum(e, url));
        proof {
            assert(enums@ =~= es0.skip(j3 + 1));
        }
        j3 = j3 + 1;
    }

    ProtoFileDescriptorTemplate {
        services: out_services,
        messages: out_messages,
        enums: out_enums,
        filename,
    }
}

/// Give every entity the configured source-url root for its `[src]` links.
pub fn assign_source_url(
    document: &mut Vec<(String, ProtoNamespaceTemplate)>,
    source_url: String,
)
    ensures
        final(document)@.len() == old(document)@.len(),
        forall|i: int|
            0 <= i < old(document)@.len() ==> (#[trigger] final(document)@[i]).0 == old(
                document,
            )@[i].0 && namespace_urled(
                old(document)@[i].1,
                final(document)@[i].1,
                source_url@,
            ),
{
    let ghost doc0 = document@;
    let total = document.len();
    let mut out: Vec<(String, ProtoNamespaceTemplate)> = Vec::new();
    let mut j: usize = 0;
    while document.len() > 0
        invariant
            doc0.len() == total,
            doc0 == old(document)@,
            0 <= j <= doc0.len(),
            document@ == doc0.skip(j as int),
            out@.len() == j,
            forall|k: int|
                0 <= k < j ==> (#[trigger] out@[k]).0 == doc0[k].0 && namespace_urled(
                    doc0[k].1,
                    out@[k].1,
                    source_url@,
                ),
        decreases document@.len(),
    {
        proof {
            assert(j < doc0.len());
            assert(doc0.skip(j as int)[0] == doc0[j as int]);
        }
        let (key, ns) = document.remove(0);
        let ProtoNamespaceTemplate { files } = ns;
        let ghost fs0 = files@;
        let mut files = files;
        let ftotal = files.len();
        let mut out_files: Vec<ProtoFileDescriptorTemplate> = Vec::new();
        let mut j2: usize = 0;
        while files.len() > 0
            invariant
                fs0.len() == ftotal,
                0 <= j2 <= fs0.len(),
                files@ == fs0.skip(j2 as int),
                out_files@.len() == j2,
                forall|k: int|
                    0 <= k < j2 ==> file_urled(#[trigger] fs0[k], out_files@[k], source_url@),
            decreases files@.len(),
        {
            proof {
                assert(j2 < fs0.len());
                assert(fs0.skip(j2 as int)[0] == fs0[j2 as int]);
            }
            let f = files.remove(0);
            out_files.push(url_file(f, &source_url));
            proof {
                assert(files@ =~= fs0.skip(j2 + 1));
            }
            j2 = j2 + 1;
        }
        out.push((key, ProtoNamespaceTemplate { files: out_files }));
        proof {
            assert(document@ =~= doc0.skip(j + 1));
        }
        j = j + 1;
    }
    *document = out;
}

/// The raw fully-qualified name of an entity: the leading dot, the package,
/// a dot, then the enclosing names and the entity's own name joined with
/// dots.
fn entity_fqsl_string(package: &String, namespace: &Vec<String>, name: &String) -> (r:
    String)
    ensures
        r@ == entity_fqsl(
            package@,
            namespace@.map_values(|s: String| s@).push(name@),
        ),
        r@.len() >= 1 && r@[0] == '.',
{
    let mut fq = crate::descriptor::copy_string_vec(namespace);
    fq.push(name.clone());
    proof {
        reveal_strlit(".");
        assert("."@ =~= seq!['.']);
        assert(fq@.map_values(|s: String| s@) =~= namespace@.map_values(
            |s: String| s@,
        ).push(name@));
    }
    let mut r = String::new();
    r.append(".");
    r.append(package.as_str());
    r.append(".");
    r.append(join_strings(&fq, ".").as_str());
    proof {
        assert(r@ =~= entity_fqsl(
            package@,
            namespace@.map_values(|s: String| s@).push(name@),
        ));
        assert(r@[0] == '.');
    }
    r
}

} // verus!
