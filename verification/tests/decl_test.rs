use flat_regex::collect::collect_matches;
use flat_regex::collect::Entry;
use flat_regex::collect::RawKey;
use flat_regex::collect::Value;
use flat_regex::collect::ValueKind;
use flat_regex::decl::flat_regex;
use flat_regex::decl::inner;
use flat_regex::decl::lifetime;
use flat_regex::decl::lifetime_plan;
use flat_regex::decl::ArgShape;
use flat_regex::decl::ContainerType;
use flat_regex::decl::DeclError;
use flat_regex::decl::FieldDecl;
use flat_regex::decl::FieldPlan;
use flat_regex::decl::ItemDecl;
use flat_regex::decl::ItemPlan;
use flat_regex::decl::LifetimePlan;
use flat_regex::decl::VariantDecl;
use flat_regex::decl::VariantFields;
use flat_regex::decl::VariantPlan;

fn plain_field(name: &str, ty: ContainerType) -> FieldDecl {
    FieldDecl { name: name.to_string(), ty, pattern: None, key_access: None }
}

fn selective_field(
    name: &str,
    ty: ContainerType,
    pattern: &str,
    key_access: Option<&str>,
) -> FieldDecl {
    FieldDecl {
        name: name.to_string(),
        ty,
        pattern: Some(pattern.to_string()),
        key_access: key_access.map(|k| k.to_string()),
    }
}

#[test]
fn compile() {
    // struct Foo<'a, 'c> { id: u32, rest: HashMap<String, &'a str>, asd: PhantomData<&'c str> }
    // with a pattern and a custom key projection on `rest`
    let item = ItemDecl::Struct(vec![
        plain_field("id", ContainerType::Bare),
        selective_field(
            "rest",
            ContainerType::Generic(vec![ArgShape::Owned, ArgShape::Borrowed(0)]),
            r"1123",
            Some("as_str"),
        ),
        plain_field("asd", ContainerType::Generic(vec![ArgShape::Borrowed(1)])),
    ]);
    let plan = flat_regex(&item).unwrap();
    match plan {
        ItemPlan::Struct(plans) => {
            assert!(matches!(plans[0], FieldPlan::Plain));
            match &plans[1] {
                FieldPlan::Selective(sp) => {
                    assert_eq!(sp.matcher.source(), "1123");
                    assert!(sp.custom_key_access);
                    assert_eq!(sp.lifetimes, LifetimePlan::Single(0));
                },
                FieldPlan::Plain => panic!("the pattern field must be selective"),
            }
            assert!(matches!(plans[2], FieldPlan::Plain));
        },
        ItemPlan::Enum(_) => panic!("a struct declaration yields a struct plan"),
    }
}

#[test]
fn enum_test() {
    // enum RouterStatus { A(bool), B(u32), C { id: i32, lanports: HashMap<String, String> }, D }
    // with a pattern on `lanports` inside the named variant C
    let item = ItemDecl::Enum(vec![
        VariantDecl { name: "A".to_string(), fields: VariantFields::Other },
        VariantDecl { name: "B".to_string(), fields: VariantFields::Other },
        VariantDecl {
            name: "C".to_string(),
            fields: VariantFields::Named(vec![
                plain_field("id", ContainerType::Bare),
                selective_field(
                    "lanports",
                    ContainerType::Generic(vec![ArgShape::Owned, ArgShape::Owned]),
                    r"lanportstatus_\d+",
                    None,
                ),
            ]),
        },
        VariantDecl { name: "D".to_string(), fields: VariantFields::Other },
    ]);
    let plan = flat_regex(&item).unwrap();
    let matcher = match plan {
        ItemPlan::Enum(vplans) => {
            assert!(matches!(vplans[0], VariantPlan::Untouched));
            assert!(matches!(vplans[1], VariantPlan::Untouched));
            assert!(matches!(vplans[3], VariantPlan::Untouched));
            match vplans.into_iter().nth(2).unwrap() {
                VariantPlan::Named(plans) => {
                    assert!(matches!(plans[0], FieldPlan::Plain));
                    match plans.into_iter().nth(1).unwrap() {
                        FieldPlan::Selective(sp) => sp.matcher,
                        FieldPlan::Plain => panic!("the pattern field must be selective"),
                    }
                },
                VariantPlan::Untouched => panic!("a named variant gets a field-by-field plan"),
            }
        },
        ItemPlan::Struct(_) => panic!("an enum declaration yields an enum plan"),
    };
    // the input selects variant C; the host binds `id` (1) itself
    let entries = vec![
        Entry {
            key: RawKey::Text("lanportstatus_0".to_string()),
            value: Value::Text("UP".to_string()),
        },
        Entry {
            key: RawKey::Text("lanportstatus_1".to_string()),
            value: Value::Text("UP".to_string()),
        },
        Entry {
            key: RawKey::Text("lanportspeed_0".to_string()),
            value: Value::Text("100".to_string()),
        },
    ];
    let router_status = collect_matches(&matcher, ValueKind::Text, entries).unwrap();

    assert_eq!(
        router_status.matched,
        vec![
            Entry {
                key: RawKey::Text("lanportstatus_0".to_string()),
                value: Value::Text("UP".to_string()),
            },
            Entry {
                key: RawKey::Text("lanportstatus_1".to_string()),
                value: Value::Text("UP".to_string()),
            },
        ]
    )
}

#[test]
fn should_fail_at_compliltime() {
    // a pattern that does not compile rejects the declaring type
    // outright, whether or not any input ever reaches the field
    let item = ItemDecl::Struct(vec![
        plain_field("id", ContainerType::Bare),
        selective_field(
            "rest",
            ContainerType::Generic(vec![ArgShape::Owned, ArgShape::Owned]),
            r"[a-Z]",
            None,
        ),
    ]);
    let res = flat_regex(&item);
    assert!(matches!(res, Err(DeclError::BadPattern(_))))
}

#[test]
fn unsupported_item() {
    assert!(matches!(flat_regex(&ItemDecl::Other), Err(DeclError::UnsupportedItem)))
}

#[test]
fn container_shape_errors() {
    assert_eq!(inner(&ContainerType::NonPath), Err(DeclError::NotPath));
    assert_eq!(inner(&ContainerType::Bare), Err(DeclError::NotGeneric));
    assert_eq!(
        inner(&ContainerType::Generic(vec![ArgShape::Owned])),
        Err(DeclError::WrongArity)
    );
    assert_eq!(
        inner(&ContainerType::Generic(vec![
            ArgShape::Lifetime(0),
            ArgShape::Owned,
            ArgShape::Owned
        ])),
        Err(DeclError::WrongArity)
    );
    assert_eq!(
        inner(&ContainerType::Generic(vec![ArgShape::Owned, ArgShape::Borrowed(7)])),
        Ok((ArgShape::Owned, ArgShape::Borrowed(7)))
    )
}

#[test]
fn bad_pattern_reported_first() {
    // the pattern is compiled before the container shape is checked
    let item = ItemDecl::Struct(vec![selective_field(
        "rest",
        ContainerType::Bare,
        r"[a-Z]",
        None,
    )]);
    assert!(matches!(flat_regex(&item), Err(DeclError::BadPattern(_))));
    // with a compilable pattern the container shape is reported
    let item = ItemDecl::Struct(vec![selective_field(
        "rest",
        ContainerType::Bare,
        r"lanportstatus_\d+",
        None,
    )]);
    assert!(matches!(flat_regex(&item), Err(DeclError::NotGeneric)))
}

#[test]
fn lifetime_plans() {
    assert_eq!(lifetime(&ArgShape::Owned), None);
    assert_eq!(lifetime(&ArgShape::Lifetime(3)), None);
    assert_eq!(lifetime(&ArgShape::Borrowed(3)), Some(3));
    assert_eq!(lifetime_plan(None, None), LifetimePlan::NoBorrow);
    assert_eq!(lifetime_plan(None, Some(1)), LifetimePlan::Single(1));
    assert_eq!(lifetime_plan(Some(2), None), LifetimePlan::Single(2));
    assert_eq!(lifetime_plan(Some(3), Some(3)), LifetimePlan::Single(3));
    assert_eq!(
        lifetime_plan(Some(3), Some(4)),
        LifetimePlan::Pair { key: 3, value: 4 }
    )
}
