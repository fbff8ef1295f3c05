use ethabi_types::{Error, EventParam, Node, ParamType, TupleParam, TupleParams};
use serde_json::Value;

fn node_of(v: &Value) -> Node {
    match v {
        Value::Null => Node::Null,
        Value::Bool(b) => Node::Bool(*b),
        Value::Number(n) => Node::Number(n.to_string()),
        Value::String(s) => Node::Text(s.clone()),
        Value::Array(items) => Node::List(items.iter().map(node_of).collect()),
        Value::Object(map) => {
            Node::Object(map.iter().map(|(k, v)| (k.clone(), node_of(v))).collect())
        }
    }
}

fn entries_of(s: &str) -> Vec<(String, Node)> {
    let v: Value = serde_json::from_str(s).unwrap();
    match node_of(&v) {
        Node::Object(es) => es,
        other => panic!("not an object: {:?}", other),
    }
}

fn text(s: &str) -> Node {
    Node::Text(s.to_string())
}

fn entry(k: &str, v: Node) -> (String, Node) {
    (k.to_string(), v)
}

#[test]
fn event_param_event_param_deserialization() {
    let s = r#"{
			"name": "foo",
			"type": "address",
			"indexed": true
		}"#;

    let deserialized = EventParam::from_fields(&entries_of(s)).unwrap();

    assert_eq!(
        deserialized,
        EventParam {
            name: "foo".to_owned(),
            kind: ParamType::Address,
            indexed: true,
        }
    );
}

#[test]
fn event_param_tuple_deserialization() {
    let s = r#"{
            "name": "foo",
            "type": "tuple",
            "indexed": true,
            "components": [
                {
                    "name": "baseToken",
                    "type": "address"
                },
                {
                    "name": "startDate",
                    "type": "uint48"
                }
            ]
        }"#;

    let deserialized = EventParam::from_fields(&entries_of(s)).unwrap();

    assert_eq!(
        deserialized,
        EventParam {
            name: "foo".to_owned(),
            kind: ParamType::Tuple(vec![
                Box::new(ParamType::Address),
                Box::new(ParamType::Uint(48))
            ]),
            indexed: true,
        }
    );
}

#[test]
fn tuple_param_event_param_deserialization() {
    let s = r#"[{
			"name": "foo",
			"type": "address"
			},{
			"name": "bar",
			"type": "address"
			},{
			"name": "baz",
			"type": "address"
			},{
			"type": "bool"
			}
		]"#;

    let v: Value = serde_json::from_str(s).unwrap();
    let deserialized: Vec<TupleParam> = match node_of(&v) {
        Node::List(items) => items
            .iter()
            .map(|item| match item {
                Node::Object(es) => TupleParam::from_fields(es).unwrap(),
                other => panic!("not an object: {:?}", other),
            })
            .collect(),
        other => panic!("not a list: {:?}", other),
    };

    assert_eq!(
        deserialized,
        vec![
            TupleParam {
                name: Some(String::from("foo")),
                kind: ParamType::Address
            },
            TupleParam {
                name: Some(String::from("bar")),
                kind: ParamType::Address
            },
            TupleParam {
                name: Some(String::from("baz")),
                kind: ParamType::Address
            },
            TupleParam {
                name: None,
                kind: ParamType::Bool
            },
        ]
    );
}

#[test]
fn tuple_params_event_param_deserialization() {
    let s = r#"[{
			"name": "foo",
			"type": "address"
			},{
			"name": "foo",
			"type": "address"
			},{
			"name": "foo",
			"type": "address"
			},{
			"name": "foo",
			"type": "bool"
			}
		]"#;

    let v: Value = serde_json::from_str(s).unwrap();
    let deserialized = TupleParams::from_node(&node_of(&v)).unwrap();

    assert_eq!(
        deserialized,
        TupleParams(vec![
            Box::new(ParamType::Address),
            Box::new(ParamType::Address),
            Box::new(ParamType::Address),
            Box::new(ParamType::Bool)
        ])
    );
}

#[test]
fn event_param_indexed_defaults_to_false() {
    let es = vec![entry("name", text("foo")), entry("type", text("address"))];
    assert_eq!(
        EventParam::from_fields(&es).unwrap(),
        EventParam { name: "foo".to_owned(), kind: ParamType::Address, indexed: false }
    );
}

#[test]
fn tuple_without_components_fails() {
    let es = vec![entry("name", text("foo")), entry("type", text("tuple"))];
    assert_eq!(
        EventParam::from_fields(&es),
        Err(Error::MissingField("components".to_string()))
    );
    let es = vec![entry("type", text("tuple"))];
    assert_eq!(
        TupleParam::from_fields(&es),
        Err(Error::MissingField("components".to_string()))
    );
}

#[test]
fn repeated_name_fails() {
    let es = vec![
        entry("name", text("foo")),
        entry("type", text("address")),
        entry("name", text("bar")),
    ];
    assert_eq!(EventParam::from_fields(&es), Err(Error::DuplicateField("name".to_string())));
    assert_eq!(TupleParam::from_fields(&es), Err(Error::DuplicateField("name".to_string())));
}

#[test]
fn repeated_fields_are_reported_by_key() {
    let es = vec![
        entry("name", text("foo")),
        entry("type", text("address")),
        entry("type", text("bool")),
    ];
    assert_eq!(EventParam::from_fields(&es), Err(Error::DuplicateField("type".to_string())));
    assert_eq!(TupleParam::from_fields(&es), Err(Error::DuplicateField("type".to_string())));
    let es = vec![
        entry("name", text("foo")),
        entry("indexed", Node::Bool(true)),
        entry("type", text("address")),
        entry("indexed", Node::Bool(false)),
    ];
    assert_eq!(EventParam::from_fields(&es), Err(Error::DuplicateField("indexed".to_string())));
    assert_eq!(
        TupleParam::from_fields(&es).unwrap(),
        TupleParam { name: Some("foo".to_string()), kind: ParamType::Address }
    );
}

#[test]
fn missing_required_fields() {
    let es = vec![entry("type", text("address"))];
    assert_eq!(EventParam::from_fields(&es), Err(Error::MissingField("name".to_string())));
    let es = vec![entry("name", text("foo"))];
    assert_eq!(EventParam::from_fields(&es), Err(Error::MissingField("kind".to_string())));
    assert_eq!(TupleParam::from_fields(&es), Err(Error::MissingField("type".to_string())));
}

#[test]
fn wrong_field_shapes() {
    let es = vec![entry("name", Node::Number("5".to_string())), entry("type", text("bool"))];
    assert_eq!(EventParam::from_fields(&es), Err(Error::InvalidFieldType("name".to_string())));
    let es = vec![entry("name", text("x")), entry("type", text("bool")), entry("indexed", text("yes"))];
    assert_eq!(EventParam::from_fields(&es), Err(Error::InvalidFieldType("indexed".to_string())));
    let es = vec![entry("name", text("x")), entry("type", text("tuple")), entry("components", Node::Null)];
    assert_eq!(
        EventParam::from_fields(&es),
        Err(Error::InvalidFieldType("components".to_string()))
    );
}

#[test]
fn bad_type_string_fails() {
    let es = vec![entry("name", text("x")), entry("type", text("uint8x"))];
    assert_eq!(EventParam::from_fields(&es), Err(Error::InvalidNumber));
    let es = vec![entry("name", text("x")), entry("type", text("float"))];
    assert_eq!(EventParam::from_fields(&es), Err(Error::InvalidName("float".to_string())));
}

#[test]
fn components_ignored_when_not_tuple() {
    let comps = Node::List(vec![Node::Object(vec![entry("type", text("bool"))])]);
    let es = vec![entry("name", text("x")), entry("type", text("address")), entry("components", comps)];
    assert_eq!(
        EventParam::from_fields(&es).unwrap(),
        EventParam { name: "x".to_owned(), kind: ParamType::Address, indexed: false }
    );
}

#[test]
fn component_without_type_fails() {
    let comps = Node::List(vec![Node::Object(vec![entry("name", text("a"))])]);
    assert_eq!(TupleParams::from_node(&comps), Err(Error::MissingTypeField));
    let comps = Node::List(vec![Node::Bool(true)]);
    assert_eq!(TupleParams::from_node(&comps), Err(Error::MissingTypeField));
}

#[test]
fn nested_tuple_components() {
    let inner = Node::List(vec![
        Node::Object(vec![entry("type", text("bool"))]),
        Node::Object(vec![entry("type", text("uint8[2]"))]),
    ]);
    let comps = Node::List(vec![
        Node::Object(vec![entry("type", text("address"))]),
        Node::Object(vec![entry("type", text("tuple")), entry("components", inner)]),
    ]);
    let es = vec![entry("name", text("n")), entry("type", text("tuple")), entry("components", comps)];
    assert_eq!(
        EventParam::from_fields(&es).unwrap().kind,
        ParamType::Tuple(vec![
            Box::new(ParamType::Address),
            Box::new(ParamType::Tuple(vec![
                Box::new(ParamType::Bool),
                Box::new(ParamType::FixedArray(Box::new(ParamType::Uint(8)), 2))
            ]))
        ])
    );
    let lonely = Node::List(vec![Node::Object(vec![entry("type", text("tuple"))])]);
    assert_eq!(
        TupleParams::from_node(&lonely),
        Err(Error::MissingField("components".to_string()))
    );
}

#[test]
fn last_type_entry_of_component_counts() {
    let comps = Node::List(vec![Node::Object(vec![
        entry("type", text("bool")),
        entry("type", text("string")),
    ])]);
    assert_eq!(
        TupleParams::from_node(&comps).unwrap(),
        TupleParams(vec![Box::new(ParamType::String)])
    );
}

#[test]
fn bracket_tuple_type_takes_components() {
    let comps = Node::List(vec![
        Node::Object(vec![entry("type", text("address"))]),
        Node::Object(vec![entry("type", text("uint48"))]),
    ]);
    let es = vec![entry("name", text("foo")), entry("type", text("[bool]")), entry("components", comps)];
    assert_eq!(
        EventParam::from_fields(&es).unwrap().kind,
        ParamType::Tuple(vec![Box::new(ParamType::Address), Box::new(ParamType::Uint(48))])
    );
}

#[test]
fn malformed_components_ignored_when_not_tuple() {
    let es = vec![entry("type", text("bool")), entry("components", Node::Null)];
    assert_eq!(
        TupleParam::from_fields(&es).unwrap(),
        TupleParam { name: None, kind: ParamType::Bool }
    );
    let bad = Node::List(vec![Node::Object(vec![entry("name", text("a"))])]);
    let es = vec![entry("name", text("x")), entry("components", bad), entry("type", text("address"))];
    assert_eq!(
        EventParam::from_fields(&es).unwrap(),
        EventParam { name: "x".to_owned(), kind: ParamType::Address, indexed: false }
    );
}

#[test]
fn repeated_components_fail_even_when_not_tuple() {
    let es = vec![
        entry("type", text("bool")),
        entry("components", Node::Null),
        entry("components", Node::List(vec![])),
    ];
    assert_eq!(
        TupleParam::from_fields(&es),
        Err(Error::DuplicateField("components".to_string()))
    );
}

#[test]
fn tuple_type_string_does_not_matter() {
    let comps = || {
        Node::List(vec![
            Node::Object(vec![entry("type", text("address"))]),
            Node::Object(vec![entry("type", text("uint48"))]),
        ])
    };
    let a = vec![entry("name", text("foo")), entry("type", text("tuple")), entry("components", comps())];
    let b = vec![entry("name", text("foo")), entry("type", text("[bool,string]")), entry("components", comps())];
    assert_eq!(EventParam::from_fields(&a), EventParam::from_fields(&b));
}
