//! The decoded schema-descriptor tree, as plain values: packages, messages,
//! enums, services, methods and fields, plus the optional source-location
//! and comment records keyed by a structural path.  The host decodes the
//! binary container and hands the tree over in this shape; the indexer walks
//! it and is verified against it.

use vstd::prelude::*;

verus! {

/// One source-location record: the structural path of the element it
/// belongs to, its span in the source file, and its comments.
#[derive(Debug)]
pub struct Location {
    pub path: Vec<i32>,
    pub span: Vec<i32>,
    pub leading_comments: Option<String>,
    pub trailing_comments: Option<String>,
    pub leading_detached_comments: Vec<String>,
}

/// The declared type of a field, as the descriptor encodes it.
#[derive(Clone, Copy, Debug, PartialEq, Eq)]
pub enum FieldKind {
    Double,
    Float,
    Int64,
    Uint64,
    Int32,
    Fixed64,
    Fixed32,
    Bool,
    String,
    Group,
    Message,
    Bytes,
    Uint32,
    Enum,
    Sfixed32,
    Sfixed64,
    Sint32,
    Sint64,
}

/// One field declaration: its name, declared kind (absent when the
/// descriptor carries none), the fully-qualified name of its type when the
/// kind is a message or enum reference, and its flags.
#[derive(Debug)]
pub struct FieldDescriptor {
    pub name: String,
    pub kind: Option<FieldKind>,
    pub type_ref: String,
    pub proto3_optional: bool,
    pub oneof_index: Option<i32>,
    pub deprecated: bool,
}

/// One value of an enum declaration.
#[derive(Debug)]
pub struct EnumValueDescriptor {
    pub name: String,
    pub number: i32,
    pub deprecated: bool,
}

#[derive(Debug)]
pub struct EnumDescriptor {
    pub name: String,
    pub values: Vec<EnumValueDescriptor>,
}

/// One message declaration, with its nested messages and enums.
#[derive(Debug)]
pub struct MessageDescriptor {
    pub name: String,
    pub fields: Vec<FieldDescriptor>,
    pub oneofs: Vec<String>,
    pub nested_messages: Vec<MessageDescriptor>,
    pub nested_enums: Vec<EnumDescriptor>,
    pub deprecated: bool,
}

/// One service method: its name and the fully-qualified names of its
/// request and response types.
#[derive(Debug)]
pub struct MethodDescriptor {
    pub name: String,
    pub input_type: Option<String>,
    pub output_type: Option<String>,
    pub deprecated: bool,
}

#[derive(Debug)]
pub struct ServiceDescriptor {
    pub name: String,
    pub methods: Vec<MethodDescriptor>,
}

/// One schema file: its name, owning package, declarations, and the
/// optional source-code info with one location record per element.
#[derive(Debug)]
pub struct FileDescriptor {
    pub name: String,
    pub package: String,
    pub messages: Vec<MessageDescriptor>,
    pub enums: Vec<EnumDescriptor>,
    pub services: Vec<ServiceDescriptor>,
    pub source_code_info: Option<Vec<Location>>,
}

/// A structural copy of a vector of path or span components.
pub fn copy_i32_vec(v: &Vec<i32>) -> (r: Vec<i32>)
    ensures
        r@ == v@,
{
    let mut r: Vec<i32> = Vec::new();
    let mut i: usize = 0;
    while i < v.len()
        invariant
            0 <= i <= v@.len(),
            r@ == v@.take(i as int),
        decreases v@.len() - i,
    {
        r.push(v[i]);
        proof {
            assert(r@ =~= v@.take(i + 1));
        }
        i = i + 1;
    }
    proof {
        assert(v@.take(v@.len() as int) =~= v@);
    }
    r
}

/// A structural copy of a vector of strings.
pub fn copy_string_vec(v: &Vec<String>) -> (r: Vec<String>)
    ensures
        r@.map_values(|s: String| s@) == v@.map_values(|s: String| s@),
        r@.len() == v@.len(),
{
    let mut r: Vec<String> = Vec::new();
    let mut i: usize = 0;
    proof {
        assert(r@.map_values(|s: String| s@) =~= v@.take(0).map_values(|s: String| s@));
    }
    while i < v.len()
        invariant
            0 <= i <= v@.len(),
            r@.len() == i,
            r@.map_values(|s: String| s@) == v@.take(i as int).map_values(|s: String| s@),
        decreases v@.len() - i,
    {
        r.push(v[i].clone());
        proof {
            let lhs = r@.map_values(|s: String| s@);
            let rhs = v@.take(i + 1).map_values(|s: String| s@);
            let prev = v@.take(i as int).map_values(|s: String| s@);
            assert(lhs.len() == r@.len());
            assert(rhs.len() == i + 1);
            assert(prev.len() == i);
            assert forall|k: int| 0 <= k < i + 1 implies lhs[k] == rhs[k] by {
                assert(lhs[k] == r@[k]@);
                assert(rhs[k] == v@.take(i + 1)[k]@);
                if k < i {
                    assert(prev[k] == v@.take(i as int)[k]@);
                }
            }
            assert(lhs =~= rhs);
        }
        i = i + 1;
    }
    proof {
        assert(v@.take(v@.len() as int) =~= v@);
    }
    r
}

/// Do two optional strings hold the same characters?
pub open spec fn opt_str_eqv(a: Option<String>, b: Option<String>) -> bool {
    match (a, b) {
        (None, None) => true,
        (Some(x), Some(y)) => x@ == y@,
        _ => false,
    }
}

/// Do two location records hold the same data?
pub open spec fn loc_eqv(a: Location, b: Location) -> bool {
    &&& a.path@ == b.path@
    &&& a.span@ == b.span@
    &&& opt_str_eqv(a.leading_comments, b.leading_comments)
    &&& opt_str_eqv(a.trailing_comments, b.trailing_comments)
    &&& a.leading_detached_comments@.map_values(|s: String| s@)
        == b.leading_detached_comments@.map_values(|s: String| s@)
}

impl Location {
    /// A structural copy of this location record.
    pub fn duplicate(&self) -> (r: Location)
        ensures
            loc_eqv(r, *self),
    {
        Location {
            path: copy_i32_vec(&self.path),
            span: copy_i32_vec(&self.span),
            leading_comments: match &self.leading_comments {
                Some(s) => Some(s.clone()),
                None => None,
            },
            trailing_comments: match &self.trailing_comments {
                Some(s) => Some(s.clone()),
                None => None,
            },
            leading_detached_comments: copy_string_vec(&self.leading_detached_comments),
        }
    }
}

} // verus!
