use wanxiang_installer::yaml::{Document, YamlError, YamlScalar, YamlValue};

fn doc(source: &str) -> Document {
    match Document::read(source) {
        Ok(d) => d,
        Err(_) => panic!("not loaded"),
    }
}

fn strings(values: &[YamlValue]) -> Vec<String> {
    values.iter().filter_map(|v| v.as_str().map(str::to_string)).collect()
}

const SOURCE: &str = "schema:\n  version: \"1.2.3\"\nspeller:\n  algebra:\n    - __patch: a\n    - __patch: [b, c]\n    - other: d\nlist:\n  - x\n  - 7\n  - true\n";

#[test]
fn values_follow_mappings_and_sequences() {
    let d = doc(SOURCE);
    assert_eq!(strings(&d.values(&["schema", "version"])), vec!["1.2.3"]);
    assert_eq!(strings(&d.values(&["speller", "algebra", "__patch"])), vec!["a", "b", "c"]);
    assert_eq!(d.values(&["speller", "algebra", "missing"]).len(), 0);
    assert_eq!(d.values(&["speller"]).len(), 0);
    let list = d.values(&["list"]);
    assert_eq!(list.len(), 3);
    assert!(matches!(list[1].scalar, YamlScalar::Int(7)));
    assert_eq!(list[2].as_bool(), Some(true));
    assert_eq!(list[0].as_str(), Some("x"));
}

#[test]
fn value_spans_are_character_ranges() {
    let source = "名字: 值\nk: v2\n";
    let d = doc(source);
    let v = d.required(&["k"]).unwrap_or_else(|_| panic!("missing"));
    let chars: Vec<char> = source.chars().collect();
    let text: String = chars[v.start..v.end].iter().collect();
    assert_eq!(text, "v2");
    let v = d.required(&["名字"]).unwrap_or_else(|_| panic!("missing"));
    let text: String = chars[v.start..v.end].iter().collect();
    assert_eq!(text, "值");
}

#[test]
fn required_names_the_missing_path() {
    let d = doc(SOURCE);
    match d.required(&["schema", "name"]) {
        Err(YamlError::MissingField(p)) => assert_eq!(p, "schema.name"),
        _ => panic!("expected a missing field"),
    }
}

#[test]
fn keys_are_read_as_yaml_scalars() {
    let d = doc("1: one\n\"2\": two\ntrue: yes\n");
    assert_eq!(strings(&d.values(&["1"])), vec!["one"]);
    assert_eq!(d.values(&["2"]).len(), 0);
    assert_eq!(strings(&d.values(&["true"])), vec!["yes"]);
}

#[test]
fn empty_and_invalid_sources() {
    assert!(matches!(Document::read(""), Err(YamlError::Empty)));
    assert!(matches!(Document::read("a: [1, 2"), Err(YamlError::Load(_))));
    assert!(matches!(Document::read("a: 1\na: 2\n"), Err(YamlError::Load(_))));
}

#[test]
fn only_the_first_document_is_read() {
    let d = doc("a: first\n---\na: second\n");
    assert_eq!(strings(&d.values(&["a"])), vec!["first"]);
}

#[test]
fn float_keys_compare_by_value() {
    let d = doc("-0.0: zero\n1.5: half\n");
    assert_eq!(strings(&d.values(&["0.0"])), vec!["zero"]);
    assert_eq!(strings(&d.values(&["1.50"])), vec!["half"]);
    assert_eq!(d.values(&["2.5"]).len(), 0);
}
