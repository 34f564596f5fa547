use json_cleaner::Node;

fn parse(text: &str) -> serde_json::Value {
    serde_json::from_str(text).unwrap()
}

#[test]
fn from_json_reads_every_kind() {
    assert_eq!(Node::from_json(&parse("null")), Node::Null);
    assert_eq!(Node::from_json(&parse("true")), Node::Bool(true));
    assert_eq!(Node::from_json(&parse("12")), Node::Number(serde_json::Number::from(12)));
    assert_eq!(Node::from_json(&parse("\" a \"")), Node::String(" a ".to_string()));
    assert_eq!(
        Node::from_json(&parse("[1, null, [\"x\"]]")),
        Node::Array(vec![
            Node::Number(serde_json::Number::from(1)),
            Node::Null,
            Node::Array(vec![Node::String("x".to_string())]),
        ])
    );
}

#[test]
fn from_json_keeps_the_members_in_document_order() {
    let json = parse(r#"{"z": 1, "a": {"y": null, "b": false}, "m": []}"#);
    let expected = Node::Object(vec![
        ("z".to_string(), Node::Number(serde_json::Number::from(1))),
        (
            "a".to_string(),
            Node::Object(vec![
                ("y".to_string(), Node::Null),
                ("b".to_string(), Node::Bool(false)),
            ]),
        ),
        ("m".to_string(), Node::Array(vec![])),
    ]);
    assert_eq!(Node::from_json(&json), expected);
}

#[test]
fn to_json_writes_every_kind() {
    let node = Node::Object(vec![
        ("z".to_string(), Node::Number(serde_json::Number::from(1))),
        ("a".to_string(), Node::Array(vec![Node::Null, Node::Bool(true)])),
        ("s".to_string(), Node::String("x y".to_string())),
        ("o".to_string(), Node::Object(vec![])),
    ]);
    let json = node.to_json();
    assert_eq!(json, parse(r#"{"z": 1, "a": [null, true], "s": "x y", "o": {}}"#));
    assert_eq!(
        serde_json::to_string(&json).unwrap(),
        r#"{"z":1,"a":[null,true],"s":"x y","o":{}}"#
    );
    assert_eq!(Node::Null.to_json(), serde_json::Value::Null);
}

#[test]
fn conversion_goes_there_and_back() {
    let text = r#"{"b":[1,2.5,"x",null,{"k":[]}],"a":{"y":true,"x":-3}}"#;
    let json = parse(text);
    let node = Node::from_json(&json);
    assert!(node.is_well_formed());
    let back = node.to_json();
    assert_eq!(back, json);
    assert_eq!(serde_json::to_string(&back).unwrap(), text);
}

#[test]
fn from_json_of_a_text_that_writes_a_key_twice_is_well_formed() {
    let node = Node::from_json(&parse(r#"{"k": 1, "j": 2, "k": 3}"#));
    assert!(node.is_well_formed());
    assert_eq!(
        node,
        Node::Object(vec![
            ("k".to_string(), Node::Number(serde_json::Number::from(3))),
            ("j".to_string(), Node::Number(serde_json::Number::from(2))),
        ])
    );
}
