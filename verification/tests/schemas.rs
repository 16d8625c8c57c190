use structmap_derive::schema::{
    call_name, from_map, kind_of_call, parse_rename_attrs, resolve_kind, to_map, AttrDecl, Body,
    Declaration, FieldDecl, FieldDescriptor, FieldList, Literal, MetaArg, MetaForm, Record,
    Schema, SchemaError, TypeDecl,
};
use structmap_derive::value::{Kind, Value};

fn rename(target: &str) -> AttrDecl {
    AttrDecl {
        name: Some(String::from("rename")),
        meta: Some(MetaForm::List(vec![MetaArg::NameValue {
            path: Some(String::from("name")),
            lit: Literal::Str(String::from(target)),
        }])),
    }
}

fn field(name: &str, ty: &str, attrs: Vec<AttrDecl>) -> FieldDecl {
    FieldDecl {
        ident: String::from(name),
        ty: TypeDecl::Path(String::from(ty)),
        attrs,
    }
}

fn record_type(fields: Vec<FieldDecl>) -> Declaration {
    Declaration {
        ident: String::from("MCMonitor"),
        data: Body::Struct(FieldList::Named(fields)),
    }
}

fn descriptor(name: &str, kind: Kind, rename: Option<&str>) -> FieldDescriptor {
    FieldDescriptor {
        name: String::from(name),
        kind,
        rename: rename.map(String::from),
    }
}

#[test]
fn kind_of_call_knows_the_twelve_extractors() {
    assert_eq!(kind_of_call("i8"), Some(Kind::Int8));
    assert_eq!(kind_of_call("i16"), Some(Kind::Int16));
    assert_eq!(kind_of_call("i32"), Some(Kind::Int32));
    assert_eq!(kind_of_call("i64"), Some(Kind::Int64));
    assert_eq!(kind_of_call("u8"), Some(Kind::UInt8));
    assert_eq!(kind_of_call("u16"), Some(Kind::UInt16));
    assert_eq!(kind_of_call("u32"), Some(Kind::UInt32));
    assert_eq!(kind_of_call("u64"), Some(Kind::UInt64));
    assert_eq!(kind_of_call("f32"), Some(Kind::Float32));
    assert_eq!(kind_of_call("f64"), Some(Kind::Float64));
    assert_eq!(kind_of_call("bool"), Some(Kind::Bool));
    assert_eq!(kind_of_call("string"), Some(Kind::Str));
}

#[test]
fn kind_of_call_refuses_other_names() {
    assert_eq!(kind_of_call(""), None);
    assert_eq!(kind_of_call("String"), None);
    assert_eq!(kind_of_call("i128"), None);
    assert_eq!(kind_of_call("usize"), None);
    assert_eq!(kind_of_call("vec < u8 >"), None);
}

#[test]
fn resolve_kind_lowers_the_type_name_first() {
    assert_eq!(
        resolve_kind(&TypeDecl::Path(String::from("String"))),
        Some(Kind::Str)
    );
    assert_eq!(
        resolve_kind(&TypeDecl::Path(String::from("i64"))),
        Some(Kind::Int64)
    );
    assert_eq!(
        resolve_kind(&TypeDecl::Path(String::from("BOOL"))),
        Some(Kind::Bool)
    );
    assert_eq!(
        resolve_kind(&TypeDecl::Path(String::from("std :: string :: String"))),
        None
    );
    assert_eq!(resolve_kind(&TypeDecl::Other), None);
}

#[test]
fn rename_attrs_of_fields_without_attributes_are_absent() {
    let fields = FieldList::Named(vec![
        field("mc0", "i64", vec![]),
        field("mc1", "i64", vec![]),
    ]);
    assert_eq!(parse_rename_attrs(&fields), Ok(vec![None, None]));
    assert_eq!(parse_rename_attrs(&FieldList::Named(vec![])), Ok(vec![]));
}

#[test]
fn rename_attrs_are_read_per_field() {
    let fields = FieldList::Named(vec![
        field("mc0", "i64", vec![]),
        field("mc1", "i64", vec![rename("second")]),
        field("mc", "i64", vec![rename("MCs")]),
    ]);
    assert_eq!(
        parse_rename_attrs(&fields),
        Ok(vec![
            None,
            Some(String::from("second")),
            Some(String::from("MCs"))
        ])
    );
}

#[test]
fn rename_attrs_read_only_the_first_argument() {
    let attr = AttrDecl {
        name: Some(String::from("rename")),
        meta: Some(MetaForm::List(vec![
            MetaArg::NameValue {
                path: Some(String::from("name")),
                lit: Literal::Str(String::from("first")),
            },
            MetaArg::Other,
        ])),
    };
    let fields = FieldList::Named(vec![field("a", "u8", vec![attr])]);
    assert_eq!(
        parse_rename_attrs(&fields),
        Ok(vec![Some(String::from("first"))])
    );
}

#[test]
fn rename_attrs_need_named_fields() {
    assert_eq!(
        parse_rename_attrs(&FieldList::Unnamed),
        Err(SchemaError::UnnamedFields)
    );
    assert_eq!(
        parse_rename_attrs(&FieldList::Unit),
        Err(SchemaError::UnnamedFields)
    );
}

#[test]
fn malformed_rename_attrs_are_refused() {
    let malformed = vec![
        AttrDecl { name: Some(String::from("rename")), meta: None },
        AttrDecl {
            name: Some(String::from("rename")),
            meta: Some(MetaForm::Other),
        },
        AttrDecl {
            name: Some(String::from("rename")),
            meta: Some(MetaForm::List(vec![])),
        },
        AttrDecl {
            name: Some(String::from("rename")),
            meta: Some(MetaForm::List(vec![MetaArg::Other])),
        },
        AttrDecl {
            name: Some(String::from("rename")),
            meta: Some(MetaForm::List(vec![MetaArg::NameValue {
                path: Some(String::from("key")),
                lit: Literal::Str(String::from("MCs")),
            }])),
        },
        AttrDecl {
            name: Some(String::from("rename")),
            meta: Some(MetaForm::List(vec![MetaArg::NameValue {
                path: None,
                lit: Literal::Str(String::from("MCs")),
            }])),
        },
        AttrDecl {
            name: Some(String::from("rename")),
            meta: Some(MetaForm::List(vec![MetaArg::NameValue {
                path: Some(String::from("name")),
                lit: Literal::Other,
            }])),
        },
        AttrDecl {
            name: Some(String::from("rename")),
            meta: Some(MetaForm::List(vec![
                MetaArg::Other,
                MetaArg::NameValue {
                    path: Some(String::from("name")),
                    lit: Literal::Str(String::from("MCs")),
                },
            ])),
        },
    ];
    for attr in malformed {
        let fields = FieldList::Named(vec![
            field("mc0", "i64", vec![]),
            field("mc", "i64", vec![attr]),
        ]);
        assert_eq!(
            parse_rename_attrs(&fields),
            Err(SchemaError::MalformedRename)
        );
    }
}

#[test]
fn a_second_attribute_on_a_field_is_refused() {
    let fields = FieldList::Named(vec![field(
        "mc",
        "i64",
        vec![rename("MCs"), rename("other")],
    )]);
    assert_eq!(
        parse_rename_attrs(&fields),
        Err(SchemaError::RedefinedRename)
    );
    let fields = FieldList::Named(vec![field(
        "mc",
        "i64",
        vec![rename("MCs"), AttrDecl { name: Some(String::from("rename")), meta: None }],
    )]);
    assert_eq!(
        parse_rename_attrs(&fields),
        Err(SchemaError::RedefinedRename)
    );
    let fields = FieldList::Named(vec![field(
        "mc",
        "i64",
        vec![AttrDecl { name: Some(String::from("rename")), meta: None }, rename("MCs")],
    )]);
    assert_eq!(
        parse_rename_attrs(&fields),
        Err(SchemaError::MalformedRename)
    );
}

#[test]
fn the_first_rename_error_in_declaration_order_is_reported() {
    let fields = FieldList::Named(vec![
        field("a", "i64", vec![rename("A"), rename("AA")]),
        field("b", "i64", vec![AttrDecl { name: Some(String::from("rename")), meta: None }]),
    ]);
    assert_eq!(
        parse_rename_attrs(&fields),
        Err(SchemaError::RedefinedRename)
    );
    let fields = FieldList::Named(vec![
        field("b", "i64", vec![AttrDecl { name: Some(String::from("rename")), meta: None }]),
        field("a", "i64", vec![rename("A"), rename("AA")]),
    ]);
    assert_eq!(
        parse_rename_attrs(&fields),
        Err(SchemaError::MalformedRename)
    );
}

#[test]
fn deriving_yields_one_descriptor_per_field() {
    let decl = record_type(vec![
        field("mc0", "i64", vec![]),
        field("label", "String", vec![]),
        field("mc", "u8", vec![rename("MCs")]),
    ]);
    let expected = Schema {
        fields: vec![
            descriptor("mc0", Kind::Int64, None),
            descriptor("label", Kind::Str, None),
            descriptor("mc", Kind::UInt8, Some("MCs")),
        ],
    };
    assert_eq!(Schema::derive(&decl), Ok(expected.clone()));
    assert_eq!(to_map(&decl).map(|c| c.schema), Ok(expected.clone()));
    assert_eq!(from_map(&decl).map(|c| c.schema), Ok(expected));
}

#[test]
fn deriving_refuses_what_is_not_a_struct() {
    for data in [Body::Enum, Body::Union] {
        let decl = Declaration {
            ident: String::from("E"),
            data,
        };
        assert_eq!(to_map(&decl).err(), Some(SchemaError::NotAStruct));
        assert_eq!(from_map(&decl).err(), Some(SchemaError::NotAStruct));
    }
}

#[test]
fn deriving_refuses_structs_without_field_names() {
    for fields in [FieldList::Unnamed, FieldList::Unit] {
        let decl = Declaration {
            ident: String::from("T"),
            data: Body::Struct(fields),
        };
        assert_eq!(to_map(&decl).err(), Some(SchemaError::UnnamedFields));
        assert_eq!(from_map(&decl).err(), Some(SchemaError::UnnamedFields));
    }
}

#[test]
fn deriving_refuses_malformed_and_repeated_renames() {
    let decl = record_type(vec![field(
        "mc",
        "i64",
        vec![AttrDecl {
            name: Some(String::from("rename")),
            meta: Some(MetaForm::Other),
        }],
    )]);
    assert_eq!(to_map(&decl).err(), Some(SchemaError::MalformedRename));
    assert_eq!(from_map(&decl).err(), Some(SchemaError::MalformedRename));
    let decl = record_type(vec![field("mc", "i64", vec![rename("a"), rename("b")])]);
    assert_eq!(to_map(&decl).err(), Some(SchemaError::RedefinedRename));
    assert_eq!(from_map(&decl).err(), Some(SchemaError::RedefinedRename));
}

#[test]
fn deriving_refuses_fields_that_are_not_primitive() {
    let decl = record_type(vec![
        field("mc0", "i64", vec![]),
        field("list", "Vec < u8 >", vec![]),
    ]);
    assert_eq!(to_map(&decl).err(), Some(SchemaError::UnsupportedType));
    assert_eq!(from_map(&decl).err(), Some(SchemaError::UnsupportedType));
    let decl = record_type(vec![FieldDecl {
        ident: String::from("pair"),
        ty: TypeDecl::Other,
        attrs: vec![],
    }]);
    assert_eq!(Schema::derive(&decl), Err(SchemaError::UnsupportedType));
}

#[test]
fn deriving_refuses_two_fields_with_one_key() {
    let decl = record_type(vec![
        field("mc0", "i64", vec![rename("mc")]),
        field("mc", "i64", vec![]),
    ]);
    assert_eq!(to_map(&decl).err(), Some(SchemaError::DuplicateKey));
    assert_eq!(from_map(&decl).err(), Some(SchemaError::DuplicateKey));
    let decl = record_type(vec![
        field("a", "i64", vec![rename("X")]),
        field("b", "i64", vec![rename("X")]),
    ]);
    assert_eq!(Schema::derive(&decl), Err(SchemaError::DuplicateKey));
}

#[test]
fn deriving_accepts_fields_that_swap_their_names() {
    let decl = record_type(vec![
        field("a", "i64", vec![rename("b")]),
        field("b", "i64", vec![rename("a")]),
    ]);
    assert!(Schema::derive(&decl).is_ok());
}

#[test]
fn rename_errors_come_before_type_errors() {
    let decl = record_type(vec![
        field("list", "Vec < u8 >", vec![]),
        field("mc", "i64", vec![AttrDecl { name: Some(String::from("rename")), meta: None }]),
    ]);
    assert_eq!(Schema::derive(&decl), Err(SchemaError::MalformedRename));
}

#[test]
fn schema_new_refuses_shared_keys() {
    let distinct = vec![
        descriptor("a", Kind::Bool, None),
        descriptor("b", Kind::Bool, Some("B")),
    ];
    assert_eq!(
        Schema::new(distinct.clone()),
        Ok(Schema { fields: distinct })
    );
    let clash = vec![
        descriptor("a", Kind::Bool, None),
        descriptor("b", Kind::Bool, Some("a")),
    ];
    assert_eq!(Schema::new(clash), Err(SchemaError::DuplicateKey));
    assert_eq!(Schema::new(vec![]).map(|s| s.len()), Ok(0));
}

#[test]
fn serialization_key_prefers_the_rename() {
    assert_eq!(descriptor("mc", Kind::Int64, Some("MCs")).serialization_key(), "MCs");
    assert_eq!(descriptor("mc", Kind::Int64, None).serialization_key(), "mc");
}

#[test]
fn keys_distinct_finds_a_repeated_key() {
    let schema = Schema {
        fields: vec![
            descriptor("a", Kind::Bool, None),
            descriptor("b", Kind::Bool, None),
            descriptor("c", Kind::Bool, Some("a")),
        ],
    };
    assert!(!schema.keys_distinct());
    let schema = Schema {
        fields: vec![
            descriptor("a", Kind::Bool, None),
            descriptor("b", Kind::Bool, None),
        ],
    };
    assert!(schema.keys_distinct());
}

#[test]
fn default_record_is_all_zero_and_conforms() {
    let schema = Schema {
        fields: vec![
            descriptor("n", Kind::Int64, None),
            descriptor("on", Kind::Bool, None),
            descriptor("label", Kind::Str, None),
            descriptor("ratio", Kind::Float64, None),
        ],
    };
    let record = schema.default_record();
    assert_eq!(
        record,
        Record {
            values: vec![
                Value::I64(0),
                Value::Bool(false),
                Value::Str(String::new()),
                Value::F64(0)
            ]
        }
    );
    assert!(schema.admits(&record));
}

#[test]
fn admits_looks_at_length_and_kinds() {
    let schema = Schema {
        fields: vec![
            descriptor("n", Kind::Int64, None),
            descriptor("on", Kind::Bool, None),
        ],
    };
    assert!(schema.admits(&Record {
        values: vec![Value::I64(5), Value::Bool(true)]
    }));
    assert!(!schema.admits(&Record {
        values: vec![Value::I64(5)]
    }));
    assert!(!schema.admits(&Record {
        values: vec![Value::U64(5), Value::Bool(true)]
    }));
    assert!(!schema.admits(&Record {
        values: vec![Value::I64(5), Value::Bool(true), Value::Bool(true)]
    }));
}

#[test]
fn call_name_is_the_lowercase_type_name() {
    assert_eq!(call_name(Kind::Int8), "i8");
    assert_eq!(call_name(Kind::Int16), "i16");
    assert_eq!(call_name(Kind::Int32), "i32");
    assert_eq!(call_name(Kind::Int64), "i64");
    assert_eq!(call_name(Kind::UInt8), "u8");
    assert_eq!(call_name(Kind::UInt16), "u16");
    assert_eq!(call_name(Kind::UInt32), "u32");
    assert_eq!(call_name(Kind::UInt64), "u64");
    assert_eq!(call_name(Kind::Float32), "f32");
    assert_eq!(call_name(Kind::Float64), "f64");
    assert_eq!(call_name(Kind::Bool), "bool");
    assert_eq!(call_name(Kind::Str), "string");
}

#[test]
fn call_name_and_kind_of_call_are_inverse() {
    let kinds = [
        Kind::Int8,
        Kind::Int16,
        Kind::Int32,
        Kind::Int64,
        Kind::UInt8,
        Kind::UInt16,
        Kind::UInt32,
        Kind::UInt64,
        Kind::Float32,
        Kind::Float64,
        Kind::Bool,
        Kind::Str,
    ];
    for kind in kinds {
        assert_eq!(kind_of_call(call_name(kind)), Some(kind));
    }
}

fn attribute(name: Option<&str>, meta: Option<MetaForm>) -> AttrDecl {
    AttrDecl {
        name: name.map(String::from),
        meta,
    }
}

fn name_is(target: &str) -> Option<MetaForm> {
    Some(MetaForm::List(vec![MetaArg::NameValue {
        path: Some(String::from("name")),
        lit: Literal::Str(String::from(target)),
    }]))
}

#[test]
fn a_doc_comment_is_no_rename_and_no_error() {
    let doc = attribute(Some("doc"), Some(MetaForm::Other));
    let fields = FieldList::Named(vec![field("mc", "i64", vec![doc.clone()])]);
    assert_eq!(parse_rename_attrs(&fields), Ok(vec![None]));
    let decl = record_type(vec![
        field("mc0", "i64", vec![doc.clone()]),
        field("mc", "i64", vec![doc.clone(), rename("MCs"), doc]),
    ]);
    assert_eq!(
        Schema::derive(&decl),
        Ok(Schema {
            fields: vec![
                descriptor("mc0", Kind::Int64, None),
                descriptor("mc", Kind::Int64, Some("MCs")),
            ],
        })
    );
}

#[test]
fn attributes_of_other_names_are_passed_over() {
    let others = vec![
        attribute(Some("serde"), name_is("X")),
        attribute(Some("Rename"), name_is("X")),
        attribute(Some("renamed"), name_is("X")),
        attribute(Some("allow"), None),
        attribute(None, name_is("X")),
        attribute(None, None),
        attribute(Some("cfg"), Some(MetaForm::List(vec![]))),
    ];
    for other in others {
        let fields = FieldList::Named(vec![field("mc", "i64", vec![other.clone()])]);
        assert_eq!(parse_rename_attrs(&fields), Ok(vec![None]));
        let fields = FieldList::Named(vec![field(
            "mc",
            "i64",
            vec![other.clone(), other.clone(), rename("MCs"), other],
        )]);
        assert_eq!(
            parse_rename_attrs(&fields),
            Ok(vec![Some(String::from("MCs"))])
        );
    }
}

#[test]
fn rename_directives_count_across_other_attributes() {
    let doc = attribute(Some("doc"), Some(MetaForm::Other));
    let fields = FieldList::Named(vec![field(
        "mc",
        "i64",
        vec![rename("a"), doc.clone(), rename("b")],
    )]);
    assert_eq!(
        parse_rename_attrs(&fields),
        Err(SchemaError::RedefinedRename)
    );
    let fields = FieldList::Named(vec![field(
        "mc",
        "i64",
        vec![doc.clone(), attribute(Some("rename"), None), doc, rename("b")],
    )]);
    assert_eq!(
        parse_rename_attrs(&fields),
        Err(SchemaError::MalformedRename)
    );
}

#[test]
fn each_schema_error_has_its_message() {
    assert_eq!(
        SchemaError::NotAStruct.message(),
        "Implementation Must Be A Struct"
    );
    assert_eq!(SchemaError::UnnamedFields.message(), "Must have named fields");
    assert_eq!(
        SchemaError::MalformedRename.message(),
        "Must be `#[rename(name = 'VALUE')]`"
    );
    assert_eq!(
        SchemaError::RedefinedRename.message(),
        "Cannot redefine field name multiple times"
    );
    assert_eq!(
        SchemaError::UnsupportedType.message(),
        "Field type must be a primitive kind"
    );
    assert_eq!(
        SchemaError::DuplicateKey.message(),
        "Two fields cannot share one key"
    );
}
