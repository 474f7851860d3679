//! The reference table of scalar field types: how each protobuf scalar is
//! named in the schema language and what it maps to in the supported target
//! languages.

use vstd::prelude::*;
use crate::descriptor::FieldKind;
use crate::view::FieldType;

verus! {

/// One row of the scalar-type table.
#[derive(Debug)]
pub struct Primitive {
    pub proto: &'static str,
    pub note: &'static str,
    pub cpp: &'static str,
    pub java_kotlin: &'static str,
    pub python: &'static str,
    pub go: &'static str,
    pub ruby: &'static str,
    pub csharp: &'static str,
    pub php: &'static str,
    pub dart: &'static str,
    pub rust: &'static str,
}

/// The scalar kinds the table covers: everything but groups and references
/// to declared messages and enums.
pub open spec fn is_scalar_kind(k: FieldKind) -> bool {
    k != FieldKind::Group && k != FieldKind::Message && k != FieldKind::Enum
}

/// The schema-language name of each scalar kind.
pub open spec fn scalar_proto_name(k: FieldKind) -> Seq<char> {
    match k {
        FieldKind::Double => "double"@,
        FieldKind::Float => "float"@,
        FieldKind::Int32 => "int32"@,
        FieldKind::Int64 => "int64"@,
        FieldKind::Uint32 => "uint32"@,
        FieldKind::Uint64 => "uint64"@,
        FieldKind::Sint32 => "sint32"@,
        FieldKind::Sint64 => "sint64"@,
        FieldKind::Fixed32 => "fixed32"@,
        FieldKind::Fixed64 => "fixed64"@,
        FieldKind::Sfixed32 => "sfixed32"@,
        FieldKind::Sfixed64 => "sfixed64"@,
        FieldKind::Bool => "bool"@,
        FieldKind::String => "string"@,
        FieldKind::Bytes => "bytes"@,
        _ => Seq::empty(),
    }
}

/// The whole table row of each scalar kind: the schema-language name, the
/// usage note, and the mapped type in every target language.
pub open spec fn scalar_row(k: FieldKind, r: Primitive) -> bool {
    match k {
        FieldKind::Double => r.proto@ == "double"@ && r.note@ == ""@ && r.cpp@ == "double"@
            && r.java_kotlin@ == "double"@ && r.python@ == "float"@ && r.go@ == "float64"@
            && r.ruby@ == "Float"@ && r.csharp@ == "double"@ && r.php@ == "float"@
            && r.dart@ == "double"@ && r.rust@ == "f64"@,
        FieldKind::Float => r.proto@ == "float"@ && r.note@ == ""@ && r.cpp@ == "float"@
            && r.java_kotlin@ == "float"@ && r.python@ == "float"@ && r.go@ == "float32"@
            && r.ruby@ == "Float"@ && r.csharp@ == "float"@ && r.php@ == "float"@
            && r.dart@ == "double"@ && r.rust@ == "f32"@,
        FieldKind::Int32 => r.proto@ == "int32"@ && r.note@
            == "Uses variable-length encoding. Inefficient for encoding negative numbers – if your field is likely to have negative values, use sint32 instead."@
            && r.cpp@ == "int32"@ && r.java_kotlin@ == "int"@ && r.python@ == "int"@
            && r.go@ == "int32"@ && r.ruby@ == "Fixnum or Bignum (as required)"@
            && r.csharp@ == "int"@ && r.php@ == "integer"@ && r.dart@ == "int"@ && r.rust@
            == "i32"@,
        FieldKind::Int64 => r.proto@ == "int64"@ && r.note@
            == "Uses variable-length encoding. Inefficient for encoding negative numbers – if your field is likely to have negative values, use sint64 instead."@
            && r.cpp@ == "int64"@ && r.java_kotlin@ == "long"@ && r.python@
            == "int/long<sup>[4]</sup>"@ && r.go@ == "int64"@ && r.ruby@ == "Bignum"@
            && r.csharp@ == "long"@ && r.php@ == "integer/string<sup>[6]</sup>"@ && r.dart@
            == "Int64"@ && r.rust@ == "i64"@,
        FieldKind::Uint32 => r.proto@ == "uint32"@ && r.note@
            == "Uses variable-length encoding."@ && r.cpp@ == "uint32"@ && r.java_kotlin@
            == "int"@ && r.python@ == "int/long<sup>[4]</sup>"@ && r.go@ == "uint32"@
            && r.ruby@ == "Fixnum or Bignum (as required)"@ && r.csharp@ == "uint"@
            && r.php@ == "integer"@ && r.dart@ == "int"@ && r.rust@ == "u32"@,
        FieldKind::Uint64 => r.proto@ == "uint64"@ && r.note@
            == "Uses variable-length encoding."@ && r.cpp@ == "uint64"@ && r.java_kotlin@
            == "long"@ && r.python@ == "int/long<sup>[4]</sup>"@ && r.go@ == "uint64"@
            && r.ruby@ == "Bignum"@ && r.csharp@ == "ulong"@ && r.php@
            == "integer/string<sup>[6]</sup>"@ && r.dart@ == "Int64"@ && r.rust@ == "u64"@,
        FieldKind::Sint32 => r.proto@ == "sint32"@ && r.note@
            == "Uses variable-length encoding. Signed int value. These more efficiently encode negative numbers than regular int32s."@
            && r.cpp@ == "int32"@ && r.java_kotlin@ == "int"@ && r.python@ == "int"@
            && r.go@ == "int32"@ && r.ruby@ == "Fixnum or Bignum (as required)"@
            && r.csharp@ == "int"@ && r.php@ == "integer"@ && r.dart@ == "int"@ && r.rust@
            == "i32"@,
        FieldKind::Sint64 => r.proto@ == "sint64"@ && r.note@
            == "Uses variable-length encoding. Signed int value. These more efficiently encode negative numbers than regular int64s."@
            && r.cpp@ == "int64"@ && r.java_kotlin@ == "long"@ && r.python@
            == "int/long<sup>[4]</sup>"@ && r.go@ == "int64"@ && r.ruby@ == "Bignum"@
            && r.csharp@ == "long"@ && r.php@ == "integer/string<sup>[6]</sup>"@ && r.dart@
            == "Int64"@ && r.rust@ == "i64"@,
        FieldKind::Fixed32 => r.proto@ == "fixed32"@ && r.note@
            == "Always four bytes. More efficient than uint32 if values are often greater than 2<sup>28</sup>."@
            && r.cpp@ == "uint32"@ && r.java_kotlin@ == "int"@ && r.python@
            == "int/long<sup>[4]</sup>"@ && r.go@ == "uint32"@ && r.ruby@
            == "Fixnum or Bignum (as required)"@ && r.csharp@ == "uint"@ && r.php@
            == "integer"@ && r.dart@ == "int"@ && r.rust@ == "u32"@,
        FieldKind::Fixed64 => r.proto@ == "fixed64"@ && r.note@
            == "Always eight bytes. More efficient than uint64 if values are often greater than 2<sup>56</sup>."@
            && r.cpp@ == "uint64"@ && r.java_kotlin@ == "long"@ && r.python@
            == "int/long<sup>[4]</sup>"@ && r.go@ == "uint64"@ && r.ruby@ == "Bignum"@
            && r.csharp@ == "ulong"@ && r.php@ == "integer/string<sup>[6]</sup>"@ && r.dart@
            == "Int64"@ && r.rust@ == "u64"@,
        FieldKind::Sfixed32 => r.proto@ == "sfixed32"@ && r.note@ == "Always four bytes."@
            && r.cpp@ == "int32"@ && r.java_kotlin@ == "int"@ && r.python@ == "int"@
            && r.go@ == "int32"@ && r.ruby@ == "Fixnum or Bignum (as required)"@
            && r.csharp@ == "int"@ && r.php@ == "integer"@ && r.dart@ == "int"@ && r.rust@
            == "i32"@,
        FieldKind::Sfixed64 => r.proto@ == "sfixed64"@ && r.note@ == "Always eight bytes."@
            && r.cpp@ == "int64"@ && r.java_kotlin@ == "long"@ && r.python@
            == "int/long<sup>[4]</sup>"@ && r.go@ == "int64"@ && r.ruby@ == "Bignum"@
            && r.csharp@ == "long"@ && r.php@ == "integer/string<sup>[6]</sup>"@ && r.dart@
            == "Int64"@ && r.rust@ == "i64"@,
        FieldKind::Bool => r.proto@ == "bool"@ && r.note@ == ""@ && r.cpp@ == "bool"@
            && r.java_kotlin@ == "boolean"@ && r.python@ == "bool"@ && r.go@ == "bool"@
            && r.ruby@ == "TrueClass/FalseClass"@ && r.csharp@ == "bool"@ && r.php@
            == "boolean"@ && r.dart@ == "bool"@ && r.rust@ == "bool"@,
        FieldKind::String => r.proto@ == "string"@ && r.note@
            == "A string must always contain UTF-8 encoded or 7-bit ASCII text, and cannot be longer than 2<sup>32</sup>."@
            && r.cpp@ == "string"@ && r.java_kotlin@ == "String"@ && r.python@
            == "str/unicode<sup>[5]</sup>"@ && r.go@ == "string"@ && r.ruby@
            == "String (UTF-8)"@ && r.csharp@ == "string"@ && r.php@ == "string"@
            && r.dart@ == "String"@ && r.rust@ == "ProtoString"@,
        FieldKind::Bytes => r.proto@ == "bytes"@ && r.note@
            == "May contain any arbitrary sequence of bytes no longer than 2<sup>32</sup>."@
            && r.cpp@ == "string"@ && r.java_kotlin@ == "ByteString"@ && r.python@
            == "str (Python 2)<br/>bytes (Python 3)"@ && r.go@ == "[]byte"@ && r.ruby@
            == "String (ASCII-8BIT)"@ && r.csharp@ == "ByteString"@ && r.php@ == "string"@
            && r.dart@ == "List<int>"@ && r.rust@ == "ProtoBytes"@,
        _ => false,
    }
}

impl FieldType {
    /// The table row for a scalar field type; only scalar primitives have
    /// one.
    pub fn definition(&self) -> (r: Primitive)
        requires
            self is Primitive,
            is_scalar_kind(self->Primitive_0),
        ensures
            r.proto@ == scalar_proto_name(self->Primitive_0),
            scalar_row(self->Primitive_0, r),
    {
        match self {
            FieldType::Primitive(typ) => match typ {
                FieldKind::Double => Primitive {
                    proto: "double",
                    note: "",
                    cpp: "double",
                    java_kotlin: "double",
                    python: "float",
                    go: "float64",
                    ruby: "Float",
                    csharp: "double",
                    php: "float",
                    dart: "double",
                    rust: "f64",
                },
                FieldKind::Float => Primitive {
                    proto: "float",
                    note: "",
                    cpp: "float",
                    java_kotlin: "float",
                    python: "float",
                    go: "float32",
                    ruby: "Float",
                    csharp: "float",
                    php: "float",
                    dart: "double",
                    rust: "f32",
                },
                FieldKind::Int32 => Primitive {
                    proto: "int32",
                    note: "Uses variable-length encoding. Inefficient for encoding negative numbers – if your field is likely to have negative values, use sint32 instead.",
                    cpp: "int32",
                    java_kotlin: "int",
                    python: "int",
                    go: "int32",
                    ruby: "Fixnum or Bignum (as required)",
                    csharp: "int",
                    php: "integer",
                    dart: "int",
                    rust: "i32",
                },
                FieldKind::Int64 => Primitive {
                    proto: "int64",
                    note: "Uses variable-length encoding. Inefficient for encoding negative numbers – if your field is likely to have negative values, use sint64 instead.",
                    cpp: "int64",
                    java_kotlin: "long",
                    python: "int/long<sup>[4]</sup>",
                    go: "int64",
                    ruby: "Bignum",
                    csharp: "long",
                    php: "integer/string<sup>[6]</sup>",
                    dart: "Int64",
                    rust: "i64",
                },
                FieldKind::Uint32 => Primitive {
                    proto: "uint32",
                    note: "Uses variable-length encoding.",
                    cpp: "uint32",
                    java_kotlin: "int",
                    python: "int/long<sup>[4]</sup>",
                    go: "uint32",
                    ruby: "Fixnum or Bignum (as required)",
                    csharp: "uint",
                    php: "integer",
                    dart: "int",
                    rust: "u32",
                },
                FieldKind::Uint64 => Primitive {
                    proto: "uint64",
                    note: "Uses variable-length encoding.",
                    cpp: "uint64",
                    java_kotlin: "long",
                    python: "int/long<sup>[4]</sup>",
                    go: "uint64",
                    ruby: "Bignum",
                    csharp: "ulong",
                    php: "integer/string<sup>[6]</sup>",
                    dart: "Int64",
                    rust: "u64",
                },
                FieldKind::Sint32 => Primitive {
                    proto: "sint32",
                    note: "Uses variable-length encoding. Signed int value. These more efficiently encode negative numbers than regular int32s.",
                    cpp: "int32",
                    java_kotlin: "int",
                    python: "int",
                    go: "int32",
                    ruby: "Fixnum or Bignum (as required)",
                    csharp: "int",
                    php: "integer",
                    dart: "int",
                    rust: "i32",
                },
                FieldKind::Sint64 => Primitive {
                    proto: "sint64",
                    note: "Uses variable-length encoding. Signed int value. These more efficiently encode negative numbers than regular int64s.",
                    cpp: "int64",
                    java_kotlin: "long",
                    python: "int/long<sup>[4]</sup>",
                    go: "int64",
                    ruby: "Bignum",
                    csharp: "long",
                    php: "integer/string<sup>[6]</sup>",
                    dart: "Int64",
                    rust: "i64",
                },
                FieldKind::Fixed32 => Primitive {
                    proto: "fixed32",
                    note: "Always four bytes. More efficient than uint32 if values are often greater than 2<sup>28</sup>.",
                    cpp: "uint32",
                    java_kotlin: "int",
                    python: "int/long<sup>[4]</sup>",
                    go: "uint32",
                    ruby: "Fixnum or Bignum (as required)",
                    csharp: "uint",
                    php: "integer",
                    dart: "int",
                    rust: "u32",
                },
                FieldKind::Fixed64 => Primitive {
                    proto: "fixed64",
                    note: "Always eight bytes. More efficient than uint64 if values are often greater than 2<sup>56</sup>.",
                    cpp: "uint64",
                    java_kotlin: "long",
                    python: "int/long<sup>[4]</sup>",
                    go: "uint64",
                    ruby: "Bignum",
                    csharp: "ulong",
                    php: "integer/string<sup>[6]</sup>",
                    dart: "Int64",
                    rust: "u64",
                },
                FieldKind::Sfixed32 => Primitive {
                    proto: "sfixed32",
                    note: "Always four bytes.",
                    cpp: "int32",
                    java_kotlin: "int",
                    python: "int",
                    go: "int32",
                    ruby: "Fixnum or Bignum (as required)",
                    csharp: "int",
                    php: "integer",
                    dart: "int",
                    rust: "i32",
                },
                FieldKind::Sfixed64 => Primitive {
                    proto: "sfixed64",
                    note: "Always eight bytes.",
                    cpp: "int64",
                    java_kotlin: "long",
                    python: "int/long<sup>[4]</sup>",
                    go: "int64",
                    ruby: "Bignum",
                    csharp: "long",
                    php: "integer/string<sup>[6]</sup>",
                    dart: "Int64",
                    rust: "i64",
                },
                FieldKind::Bool => Primitive {
                    proto: "bool",
                    note: "",
                    cpp: "bool",
                    java_kotlin: "boolean",
                    python: "bool",
                    go: "bool",
                    ruby: "TrueClass/FalseClass",
                    csharp: "bool",
                    php: "boolean",
                    dart: "bool",
                    rust: "bool",
                },
                FieldKind::String => Primitive {
                    proto: "string",
                    note: "A string must always contain UTF-8 encoded or 7-bit ASCII text, and cannot be longer than 2<sup>32</sup>.",
                    cpp: "string",
                    java_kotlin: "String",
                    python: "str/unicode<sup>[5]</sup>",
                    go: "string",
                    ruby: "String (UTF-8)",
                    csharp: "string",
                    php: "string",
                    dart: "String",
                    rust: "ProtoString",
                },
                FieldKind::Bytes => Primitive {
                    proto: "bytes",
                    note: "May contain any arbitrary sequence of bytes no longer than 2<sup>32</sup>.",
                    cpp: "string",
                    java_kotlin: "ByteString",
                    python: "str (Python 2)<br/>bytes (Python 3)",
                    go: "[]byte",
                    ruby: "String (ASCII-8BIT)",
                    csharp: "ByteString",
                    php: "string",
                    dart: "List<int>",
                    rust: "ProtoBytes",
                },
                _ => {
                    proof {
                        assert(false);
                    }
                    Primitive {
                        proto: "",
                        note: "",
                        cpp: "",
                        java_kotlin: "",
                        python: "",
                        go: "",
                        ruby: "",
                        csharp: "",
                        php: "",
                        dart: "",
                        rust: "",
                    }
                },
            },
            _ => {
                proof {
                    assert(false);
                }
                Primitive {
                    proto: "",
                    note: "",
                    cpp: "",
                    java_kotlin: "",
                    python: "",
                    go: "",
                    ruby: "",
                    csharp: "",
                    php: "",
                    dart: "",
                    rust: "",
                }
            },
        }
    }
}

} // verus!
