use cornucopia::{
    Catalog, CompositeField, ErrorKind, GeneratedField, GeneratedKind, GeneratedType, TypeDetail,
    TypeIdentity, TypeRegistrar, MAX_DEPTH,
};

fn entry(oid: u32, name: &str, detail: TypeDetail) -> TypeIdentity {
    TypeIdentity { oid, name: name.to_string(), detail }
}

fn sample_catalog() -> Catalog {
    Catalog {
        types: vec![
            entry(23, "int4", TypeDetail::Scalar),
            entry(25, "text", TypeDetail::Scalar),
            entry(1043, "varchar", TypeDetail::Scalar),
            entry(16, "bool", TypeDetail::Scalar),
            entry(600, "point", TypeDetail::Scalar),
            entry(1007, "_int4", TypeDetail::Array { element: 23 }),
            entry(1009, "_text", TypeDetail::Array { element: 25 }),
            entry(1015, "_varchar", TypeDetail::Array { element: 1043 }),
            entry(
                5000,
                "mood",
                TypeDetail::Enum { labels: vec!["sad".to_string(), "ok".to_string(), "happy".to_string()] },
            ),
            entry(5001, "positive", TypeDetail::Domain { base: 23, not_null: true }),
            entry(5002, "maybe_text", TypeDetail::Domain { base: 25, not_null: false }),
            entry(
                5003,
                "person",
                TypeDetail::Composite {
                    fields: vec![
                        CompositeField { name: "name".to_string(), type_oid: 25 },
                        CompositeField { name: "mood".to_string(), type_oid: 5000 },
                        CompositeField { name: "scores".to_string(), type_oid: 1007 },
                    ],
                },
            ),
            entry(5004, "_point", TypeDetail::Array { element: 600 }),
            entry(
                5005,
                "node",
                TypeDetail::Composite {
                    fields: vec![CompositeField { name: "children".to_string(), type_oid: 5006 }],
                },
            ),
            entry(5006, "_node", TypeDetail::Array { element: 5005 }),
        ],
    }
}

fn scalar(name: &str) -> GeneratedType {
    GeneratedType { name: name.to_string(), kind: GeneratedKind::Scalar }
}

fn field(name: &str, ty: usize, nullable: bool) -> GeneratedField {
    GeneratedField { name: name.to_string(), ty, nullable }
}

#[test]
fn new_registrar_is_empty() {
    let registrar = TypeRegistrar::new();
    assert!(registrar.types().is_empty());
    assert!(registrar.rows().is_empty());
    assert_eq!(registrar.lookup(23), None);
}

#[test]
fn scalars_go_by_the_table() {
    let catalog = sample_catalog();
    let mut registrar = TypeRegistrar::new();
    assert_eq!(registrar.resolve(&catalog, 23), Ok(0));
    assert_eq!(registrar.resolve(&catalog, 16), Ok(1));
    assert_eq!(registrar.types(), &vec![scalar("i32"), scalar("bool")]);
    assert_eq!(registrar.lookup(23), Some(0));
    assert_eq!(registrar.lookup(16), Some(1));
    assert_eq!(registrar.lookup(25), None);
}

#[test]
fn every_entry_of_the_scalar_table() {
    let pairs = [
        ("bool", "bool"),
        ("char", "i8"),
        ("int2", "i16"),
        ("int4", "i32"),
        ("int8", "i64"),
        ("oid", "u32"),
        ("float4", "f32"),
        ("float8", "f64"),
        ("text", "String"),
        ("varchar", "String"),
        ("bpchar", "String"),
        ("name", "String"),
        ("bytea", "Vec<u8>"),
        ("timestamp", "time::PrimitiveDateTime"),
        ("timestamptz", "time::OffsetDateTime"),
        ("date", "time::Date"),
        ("time", "time::Time"),
        ("json", "serde_json::Value"),
        ("jsonb", "serde_json::Value"),
        ("uuid", "uuid::Uuid"),
        ("inet", "std::net::IpAddr"),
    ];
    for (k, (database, generated)) in pairs.iter().enumerate() {
        let catalog = Catalog { types: vec![entry(k as u32, database, TypeDetail::Scalar)] };
        let mut registrar = TypeRegistrar::new();
        assert_eq!(registrar.resolve(&catalog, k as u32), Ok(0));
        assert_eq!(registrar.types()[0], scalar(generated));
    }
}

#[test]
fn database_types_that_map_to_one_type_share_it() {
    let catalog = sample_catalog();
    let mut registrar = TypeRegistrar::new();
    assert_eq!(registrar.resolve(&catalog, 25), Ok(0));
    assert_eq!(registrar.resolve(&catalog, 1043), Ok(0));
    assert_eq!(registrar.types(), &vec![scalar("String")]);
    // Their arrays are one type too.
    assert_eq!(registrar.resolve(&catalog, 1009), Ok(1));
    assert_eq!(registrar.resolve(&catalog, 1015), Ok(1));
    assert_eq!(registrar.types().len(), 2);
}

#[test]
fn unmapped_scalar_is_named_in_the_error() {
    let catalog = sample_catalog();
    let mut registrar = TypeRegistrar::new();
    let error = registrar.resolve(&catalog, 600).unwrap_err();
    assert_eq!(error.kind, ErrorKind::TypeResolution);
    assert_eq!(error.subject, "point");
    assert_eq!(error.detail, "no generated type is known for this database type");
    assert!(registrar.types().is_empty());
    // The same through an array.
    let error = registrar.resolve(&catalog, 5004).unwrap_err();
    assert_eq!((error.kind, error.subject.as_str()), (ErrorKind::TypeResolution, "point"));
}

#[test]
fn unknown_identifier_is_named_in_the_error() {
    let catalog = sample_catalog();
    let mut registrar = TypeRegistrar::new();
    let error = registrar.resolve(&catalog, 999).unwrap_err();
    assert_eq!(error.kind, ErrorKind::TypeResolution);
    assert_eq!(error.subject, "oid 999");
    assert_eq!(error.detail, "the catalog does not know this type");
    let error = registrar.resolve(&catalog, u32::MAX).unwrap_err();
    assert_eq!(error.subject, "oid 4294967295");
}

#[test]
fn enum_keeps_its_labels_in_order() {
    let catalog = sample_catalog();
    let mut registrar = TypeRegistrar::new();
    assert_eq!(registrar.resolve(&catalog, 5000), Ok(0));
    assert_eq!(
        registrar.types()[0],
        GeneratedType {
            name: "mood".to_string(),
            kind: GeneratedKind::Enum {
                variants: vec!["sad".to_string(), "ok".to_string(), "happy".to_string()]
            }
        }
    );
}

#[test]
fn array_stands_behind_its_element() {
    let catalog = sample_catalog();
    let mut registrar = TypeRegistrar::new();
    assert_eq!(registrar.resolve(&catalog, 1007), Ok(1));
    assert_eq!(
        registrar.types(),
        &vec![
            scalar("i32"),
            GeneratedType {
                name: "Vec<i32>".to_string(),
                kind: GeneratedKind::Array { element: 0 }
            }
        ]
    );
    assert_eq!(registrar.lookup(23), Some(0));
    assert_eq!(registrar.lookup(1007), Some(1));
}

#[test]
fn domain_stands_for_its_base_type() {
    let catalog = sample_catalog();
    let mut registrar = TypeRegistrar::new();
    // With a not-null constraint: the base type itself.
    assert_eq!(registrar.resolve(&catalog, 5001), Ok(0));
    assert_eq!(registrar.types(), &vec![scalar("i32")]);
    assert_eq!(registrar.resolve(&catalog, 23), Ok(0));
    // Without: the base type, optional.
    assert_eq!(registrar.resolve(&catalog, 5002), Ok(2));
    assert_eq!(registrar.types()[1], scalar("String"));
    assert_eq!(
        registrar.types()[2],
        GeneratedType {
            name: "Option<String>".to_string(),
            kind: GeneratedKind::Optional { inner: 1 }
        }
    );
}

#[test]
fn composite_stands_behind_its_attributes() {
    let catalog = sample_catalog();
    let mut registrar = TypeRegistrar::new();
    assert_eq!(registrar.resolve(&catalog, 5003), Ok(4));
    let types = registrar.types();
    assert_eq!(types[0], scalar("String"));
    assert_eq!(types[1].name, "mood");
    assert_eq!(types[2], scalar("i32"));
    assert_eq!(types[3].name, "Vec<i32>");
    assert_eq!(
        types[4],
        GeneratedType {
            name: "person".to_string(),
            kind: GeneratedKind::Struct {
                fields: vec![field("name", 0, true), field("mood", 1, true), field("scores", 3, true)]
            }
        }
    );
    // A composite type is no row type.
    assert!(registrar.rows().is_empty());
}

#[test]
fn resolution_is_remembered() {
    let catalog = sample_catalog();
    let mut registrar = TypeRegistrar::new();
    let first = registrar.resolve(&catalog, 5003);
    let snapshot = registrar.clone();
    let second = registrar.resolve(&catalog, 5003);
    assert_eq!(first, second);
    assert_eq!(registrar, snapshot);
    // The catalog is not asked again: an empty one does as well.
    let nothing = Catalog { types: vec![] };
    assert_eq!(registrar.resolve(&nothing, 5003), first);
    assert_eq!(registrar.resolve(&nothing, 5000), Ok(1));
}

#[test]
fn first_catalog_entry_for_an_identifier_counts() {
    let catalog = Catalog {
        types: vec![entry(7, "int8", TypeDetail::Scalar), entry(7, "bool", TypeDetail::Scalar)],
    };
    let mut registrar = TypeRegistrar::new();
    assert_eq!(registrar.resolve(&catalog, 7), Ok(0));
    assert_eq!(registrar.types()[0], scalar("i64"));
}

#[test]
fn cycle_is_stopped_by_the_depth_guard() {
    let catalog = sample_catalog();
    let mut registrar = TypeRegistrar::new();
    let error = registrar.resolve(&catalog, 5005).unwrap_err();
    assert_eq!(error.kind, ErrorKind::TypeResolution);
    assert_eq!(error.subject, "node");
    assert_eq!(error.detail, "its constituents nest too deeply");
    let error = registrar.resolve(&catalog, 5006).unwrap_err();
    assert_eq!(error.subject, "_node");
}

fn nested_arrays(levels: u32) -> Catalog {
    // Type k is an array of type k + 1; the last one is an integer.
    let mut types = Vec::new();
    for k in 0..levels {
        types.push(entry(k, &format!("level{}", k), TypeDetail::Array { element: k + 1 }));
    }
    types.push(entry(levels, "int4", TypeDetail::Scalar));
    Catalog { types }
}

#[test]
fn nesting_up_to_the_limit_resolves() {
    assert_eq!(MAX_DEPTH, 16);
    let catalog = nested_arrays(16);
    let mut registrar = TypeRegistrar::new();
    assert_eq!(registrar.resolve(&catalog, 0), Ok(16));
    assert_eq!(registrar.types().len(), 17);
    assert_eq!(registrar.types()[0], scalar("i32"));
    assert_eq!(registrar.types()[2].name, "Vec<Vec<i32>>");
    assert_eq!(registrar.types()[2].kind, GeneratedKind::Array { element: 1 });
}

#[test]
fn nesting_beyond_the_limit_fails() {
    let catalog = nested_arrays(17);
    let mut registrar = TypeRegistrar::new();
    let error = registrar.resolve(&catalog, 0).unwrap_err();
    assert_eq!(error.kind, ErrorKind::TypeResolution);
    assert_eq!(error.subject, "level16");
    assert_eq!(error.detail, "its constituents nest too deeply");
    // One level further in it is within the limit.
    assert_eq!(registrar.resolve(&catalog, 1), Ok(16));
}

#[test]
fn scalar_is_registered_by_name_once() {
    let mut registrar = TypeRegistrar::new();
    assert_eq!(registrar.scalar("Decimal"), 0);
    assert_eq!(registrar.scalar("i32"), 1);
    assert_eq!(registrar.scalar("Decimal"), 0);
    assert_eq!(registrar.types(), &vec![scalar("Decimal"), scalar("i32")]);
}

#[test]
fn same_row_shape_is_one_type() {
    let mut registrar = TypeRegistrar::new();
    let int = registrar.scalar("i32");
    let text = registrar.scalar("String");
    let shape = || vec![field("id", int, false), field("label", text, true)];
    let first = registrar.register_row_shape(shape());
    assert_eq!(first, Ok(2));
    let snapshot = registrar.clone();
    let second = registrar.register_row_shape(shape());
    assert_eq!(second, Ok(2));
    assert_eq!(registrar, snapshot);
    assert_eq!(registrar.rows(), &vec![2]);
    assert_eq!(
        registrar.types()[2],
        GeneratedType {
            name: "Row0".to_string(),
            kind: GeneratedKind::Struct { fields: shape() }
        }
    );
}

#[test]
fn row_shapes_differ_by_name_type_nullability_and_order() {
    let mut registrar = TypeRegistrar::new();
    let int = registrar.scalar("i32");
    let text = registrar.scalar("String");
    let base = registrar.register_row_shape(vec![field("a", int, false), field("b", text, false)]);
    let renamed = registrar.register_row_shape(vec![field("a", int, false), field("c", text, false)]);
    let retyped = registrar.register_row_shape(vec![field("a", int, false), field("b", int, false)]);
    let nullable = registrar.register_row_shape(vec![field("a", int, false), field("b", text, true)]);
    let swapped = registrar.register_row_shape(vec![field("b", text, false), field("a", int, false)]);
    let shorter = registrar.register_row_shape(vec![field("a", int, false)]);
    let empty = registrar.register_row_shape(vec![]);
    assert_eq!(
        vec![base, renamed, retyped, nullable, swapped, shorter, empty],
        vec![Ok(2), Ok(3), Ok(4), Ok(5), Ok(6), Ok(7), Ok(8)]
    );
    let names: Vec<&str> = registrar.types()[2..].iter().map(|t| t.name.as_str()).collect();
    assert_eq!(names, vec!["Row0", "Row1", "Row2", "Row3", "Row4", "Row5", "Row6"]);
    assert_eq!(registrar.rows(), &vec![2, 3, 4, 5, 6, 7, 8]);
    // Each is found again.
    assert_eq!(
        registrar.register_row_shape(vec![field("a", int, false), field("b", text, true)]),
        Ok(5)
    );
    assert_eq!(registrar.register_row_shape(vec![]), Ok(8));
    assert_eq!(registrar.types().len(), 9);
}

#[test]
fn row_shape_stays_shared_after_other_registrations() {
    let catalog = sample_catalog();
    let mut registrar = TypeRegistrar::new();
    let int = registrar.resolve(&catalog, 23).unwrap();
    let first = registrar.register_row_shape(vec![field("id", int, false)]).unwrap();
    registrar.resolve(&catalog, 5003).unwrap();
    registrar.register_row_shape(vec![field("other", int, true)]).unwrap();
    let again = registrar.register_row_shape(vec![field("id", int, false)]).unwrap();
    assert_eq!(first, again);
    assert_eq!(registrar.rows().len(), 2);
}

#[test]
fn composite_and_row_of_the_same_fields_are_two_types() {
    let catalog = Catalog {
        types: vec![
            entry(23, "int4", TypeDetail::Scalar),
            entry(
                9,
                "pair",
                TypeDetail::Composite {
                    fields: vec![CompositeField { name: "x".to_string(), type_oid: 23 }],
                },
            ),
        ],
    };
    let mut registrar = TypeRegistrar::new();
    assert_eq!(registrar.resolve(&catalog, 9), Ok(1));
    assert_eq!(registrar.register_row_shape(vec![field("x", 0, true)]), Ok(2));
    assert_eq!(registrar.types()[1].name, "pair");
    assert_eq!(registrar.types()[2].name, "Row0");
}

#[test]
fn row_with_an_unregistered_type_is_refused() {
    let mut registrar = TypeRegistrar::new();
    let int = registrar.scalar("i32");
    let error = registrar
        .register_row_shape(vec![field("a", int, false), field("b", 7, false), field("c", 9, true)])
        .unwrap_err();
    assert_eq!(error.kind, ErrorKind::TypeResolution);
    assert_eq!(error.subject, "b");
    assert_eq!(error.detail, "the type of this field is not registered");
    assert_eq!(registrar.types().len(), 1);
    assert!(registrar.rows().is_empty());
    // The first place that is not registered is the number of types.
    assert!(registrar.register_row_shape(vec![field("a", 1, false)]).is_err());
}
