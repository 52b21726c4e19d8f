use easy_template::error::TemplateError;
use easy_template::value::document::{value_of_json, value_of_yaml, JsonNode, YamlNode};
use easy_template::value::TemplateValue;

#[test]
fn value_utils_test_from() {
    assert_eq!(
        TemplateValue::from("false").to_string(),
        TemplateValue::Bool(false).to_string()
    );
    assert_eq!(
        TemplateValue::from("12.33").to_string(),
        TemplateValue::Float("12.33".to_string()).to_string()
    );
    assert_eq!(
        TemplateValue::from("15").to_string(),
        TemplateValue::Number(15).to_string()
    );
    assert_eq!(
        TemplateValue::from("text").to_string(),
        TemplateValue::Text("text".to_string()).to_string()
    );
}

#[test]
fn value_test_from() {
    assert_eq!(
        TemplateValue::from("false").to_string(),
        TemplateValue::Bool(false).to_string()
    );
    assert_eq!(
        TemplateValue::from("12.33").to_string(),
        TemplateValue::Float("12.33".to_string()).to_string()
    );
    assert_eq!(
        TemplateValue::from("15").to_string(),
        TemplateValue::Number(15).to_string()
    );
    assert_eq!(
        TemplateValue::from("text").to_string(),
        TemplateValue::Text("text".to_string()).to_string()
    );
}

#[test]
fn value_from_edge_cases() {
    assert_eq!(TemplateValue::from("-12").to_string(), "-12");
    assert_eq!(TemplateValue::from("1e3").to_string(), "1e3");
    assert_eq!(TemplateValue::from("TRUE").to_string(), "TRUE");
    assert_eq!(TemplateValue::from("9223372036854775808").to_string(), "9223372036854775808");
}

#[test]
fn value_text_of_collections() {
    let arr = TemplateValue::Array(vec![TemplateValue::Number(1), TemplateValue::Null]);
    assert_eq!(arr.to_string(), "1,None");
    let table = TemplateValue::Table(vec![
        ("a".to_string(), TemplateValue::Bool(true)),
        ("b".to_string(), TemplateValue::Text("x".to_string())),
    ]);
    assert_eq!(table.to_string(), "a=true,b=x");
}

#[test]
fn value_equality() {
    assert_eq!(TemplateValue::Number(3), TemplateValue::Number(3));
    assert_ne!(TemplateValue::Float("1.5".to_string()), TemplateValue::Float("1.5".to_string()));
    let t1 = TemplateValue::Table(vec![
        ("a".to_string(), TemplateValue::Number(1)),
        ("b".to_string(), TemplateValue::Number(2)),
    ]);
    let t2 = TemplateValue::Table(vec![
        ("b".to_string(), TemplateValue::Number(2)),
        ("a".to_string(), TemplateValue::Number(1)),
    ]);
    assert_eq!(t1, t2);
    assert_eq!(t1.clone(), t1);
}


const JSON_DOC: &str = r#"
         {
            "name": "John Doe",
            "age": 43,
            "phones": [
                "+44 1234567",
                "+44 2345678"
            ]
        }
        "#;

const YAML_DOC: &str = "---
- &CENTER { x: 1, y: 2 }
- &LEFT { x: 0, y: 2 }
- &BIG { r: 10 }
- &SMALL { r: 1 }
# All the following maps are equal:
- # Explicit keys
  x: 1
  y: 2
  r: 10
  label: center/big
- # Merge one map
  << : *CENTER
  r: 10
  label: center/big
- # Merge multiple maps
  << : [ *CENTER, *BIG ]
  label: center/big
- # Override
  << : [ *BIG, *LEFT, *SMALL ]
  x: 1
  label: center/big
";

#[test]
fn value_utils_test_from_json() {
    assert!(TemplateValue::from_json(JSON_DOC).is_ok());
}

#[test]
fn value_test_from_json() {
    assert!(TemplateValue::from_json(JSON_DOC).is_ok());
}

#[test]
fn value_utils_test_from_yaml() {
    assert!(TemplateValue::from_yaml(YAML_DOC).is_ok());
}

#[test]
fn value_test_from_yaml() {
    assert!(TemplateValue::from_yaml(YAML_DOC).is_ok());
}

#[test]
fn json_document_values() {
    let v = TemplateValue::from_json(JSON_DOC).unwrap();
    // serde_json keeps the members of an object in key order
    assert_eq!(v.to_string(), "age=43,name=John Doe,phones=+44 1234567,+44 2345678");
    let f = TemplateValue::from_json("[1.5, null, true, -7]").unwrap();
    assert_eq!(f.to_string(), "1.5,None,true,-7");
    match TemplateValue::from_json("[18446744073709551615]") {
        Err(TemplateError::GenericError(m)) => assert_eq!(m, "number out of range"),
        other => panic!("{:?}", other),
    }
    match TemplateValue::from_json("{ not json") {
        Err(TemplateError::GenericError(m)) => assert!(!m.is_empty()),
        other => panic!("{:?}", other),
    }
}

#[test]
fn yaml_document_values() {
    let v = TemplateValue::from_yaml("a: 1\nb: [x, 2.5]\n1: one\n").unwrap();
    assert_eq!(v.to_string(), "a=1,b=x,2.5,1=one");
    // the key 1 and the key "1" have the same text: the later value replaces the earlier
    let d = TemplateValue::from_yaml("1: first\n'1': second\n").unwrap();
    assert_eq!(d.to_string(), "1=second");
    let t = TemplateValue::from_yaml("!tag 3").unwrap();
    assert_eq!(t.to_string(), "None");
    match TemplateValue::from_yaml("[18446744073709551615]") {
        Err(TemplateError::GenericError(m)) => assert_eq!(m, "number out of range"),
        other => panic!("{:?}", other),
    }
}

#[test]
fn nodes_convert_to_values() {
    let n = JsonNode::Object(vec![
        ("k".to_string(), JsonNode::Int(1)),
        ("k".to_string(), JsonNode::Array(vec![JsonNode::Float("2.0".to_string()), JsonNode::Null])),
    ]);
    assert_eq!(value_of_json(&n).to_string(), "k=2.0,None");
    let y = YamlNode::Mapping(vec![
        (YamlNode::Bool(true), YamlNode::Text("yes".to_string())),
        (YamlNode::Tagged, YamlNode::Int(-3)),
    ]);
    assert_eq!(value_of_yaml(&y).to_string(), "true=yes,None=-3");
}
