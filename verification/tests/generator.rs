use docsore::adapter::Document;
use docsore::generator::{names_in_list, Declaration, GenerationError, Record, Shape};
use docsore::records::Person;

fn declaration(fields: &[&str], collection: Option<&str>, index: Option<&str>) -> Declaration {
    Declaration {
        ident: "Person".to_string(),
        shape: Shape::NamedStruct,
        fields: fields.iter().map(|f| f.to_string()).collect(),
        collection: collection.map(|c| c.to_string()),
        index: index.map(|i| i.to_string()),
    }
}

fn record(fields: &[(&str, &str)]) -> Record {
    Record {
        fields: fields
            .iter()
            .map(|(name, value)| (name.to_string(), value.as_bytes().to_vec()))
            .collect(),
    }
}

#[test]
fn list_is_split_at_commas_and_trimmed() {
    assert_eq!(names_in_list("name, id"), vec!["name".to_string(), "id".to_string()]);
    assert_eq!(
        names_in_list(" a ,\tb\n,c"),
        vec!["a".to_string(), "b".to_string(), "c".to_string()]
    );
}

#[test]
fn empty_list_has_one_empty_name() {
    assert_eq!(names_in_list(""), vec![String::new()]);
    assert_eq!(names_in_list("   "), vec![String::new()]);
}

#[test]
fn neighbouring_commas_give_empty_names() {
    assert_eq!(
        names_in_list("a,,b,"),
        vec!["a".to_string(), String::new(), "b".to_string(), String::new()]
    );
}

#[test]
fn unicode_white_space_is_trimmed() {
    assert_eq!(names_in_list("\u{3000}name\u{a0},\u{2003}id\u{85}"), vec![
        "name".to_string(),
        "id".to_string()
    ]);
    assert_eq!(names_in_list("na me"), vec!["na me".to_string()]);
    assert_eq!(names_in_list("n\u{e9}"), vec!["n\u{e9}".to_string()]);
}

#[test]
fn names_match_the_standard_library() {
    for list in ["name, id", "", " , ,", "a,b , c ,, d", "\u{2028}x\u{205f},y\u{1680}"] {
        let expected: Vec<String> = list.split(',').map(|s| s.trim().to_string()).collect();
        assert_eq!(names_in_list(list), expected);
    }
}

#[test]
fn declared_collection_and_index_are_taken() {
    let capability =
        docsore::generator::derive(&declaration(&["id", "name"], Some("persons"), Some("name, id"))).unwrap();
    assert_eq!(capability.collection(), "persons");
    assert_eq!(capability.index_fields(), &vec!["name".to_string(), "id".to_string()]);
}

#[test]
fn collection_defaults_to_the_type_name() {
    let capability = docsore::generator::derive(&declaration(&["id", "name"], None, None)).unwrap();
    assert_eq!(capability.collection(), "Person");
    assert!(capability.index_fields().is_empty());
}

#[test]
fn repeated_index_fields_are_kept() {
    let capability = docsore::generator::derive(&declaration(&["id", "name"], None, Some("name,id,name"))).unwrap();
    assert_eq!(
        capability.index_fields(),
        &vec!["name".to_string(), "id".to_string(), "name".to_string()]
    );
    let person = record(&[("id", "p1"), ("name", "Ana")]);
    assert_eq!(
        capability.indexes(&person),
        Some(vec![b"Ana".to_vec(), b"p1".to_vec(), b"Ana".to_vec()])
    );
}

#[test]
fn unknown_index_field_fails_generation() {
    let outcome = docsore::generator::derive(&declaration(&["id", "name"], Some("persons"), Some("name, nickname")));
    assert_eq!(outcome.err(), Some(GenerationError::MissingField("nickname".to_string())));
}

#[test]
fn first_unknown_field_is_reported() {
    let outcome = docsore::generator::derive(&declaration(&["id"], None, Some("zip, name, town")));
    assert_eq!(outcome.err(), Some(GenerationError::MissingField("zip".to_string())));
}

#[test]
fn missing_identifier_field_fails_generation() {
    let outcome = docsore::generator::derive(&declaration(&["name"], None, Some("name")));
    assert_eq!(outcome.err(), Some(GenerationError::MissingField("id".to_string())));
}

#[test]
fn empty_index_list_names_no_field() {
    let outcome = docsore::generator::derive(&declaration(&["id", "name"], None, Some("")));
    assert_eq!(outcome.err(), Some(GenerationError::MissingField(String::new())));
}

#[test]
fn only_named_structs_are_supported() {
    for shape in [Shape::TupleStruct, Shape::UnitStruct, Shape::Enum, Shape::Union] {
        let mut input = declaration(&["id", "name"], None, Some("name"));
        input.shape = shape;
        assert_eq!(docsore::generator::derive(&input).err(), Some(GenerationError::UnsupportedShape));
    }
}

#[test]
fn unsupported_shape_is_reported_before_missing_fields() {
    let mut input = declaration(&[], None, Some("nickname"));
    input.shape = Shape::Enum;
    assert_eq!(docsore::generator::derive(&input).err(), Some(GenerationError::UnsupportedShape));
}

#[test]
fn capability_reads_identifier_and_fingerprints() {
    let capability = docsore::generator::derive(&declaration(&["id", "name"], None, Some("name, id"))).unwrap();
    let person = record(&[("id", "p1"), ("name", "Ana")]);
    assert_eq!(capability.id(&person), Some(b"p1".to_vec()));
    assert_eq!(capability.indexes(&person), Some(vec![b"Ana".to_vec(), b"p1".to_vec()]));
}

#[test]
fn capability_gives_nothing_for_a_record_without_the_field() {
    let capability = docsore::generator::derive(&declaration(&["id", "name"], None, Some("name"))).unwrap();
    let nameless = record(&[("id", "p1")]);
    assert_eq!(capability.id(&nameless), Some(b"p1".to_vec()));
    assert_eq!(capability.indexes(&nameless), None);
    let anonymous = record(&[("name", "Ana")]);
    assert_eq!(capability.id(&anonymous), None);
}

#[test]
fn first_field_of_a_name_is_read() {
    let twice = record(&[("id", "p1"), ("id", "p2")]);
    assert_eq!(twice.field(&"id".to_string()), Some(b"p1".to_vec()));
    assert_eq!(twice.field(&"name".to_string()), None);
}

#[test]
fn person_behaves_as_its_declaration_says() {
    let capability =
        docsore::generator::derive(&declaration(&["id", "name"], Some("persons"), Some("name, id"))).unwrap();
    let ana = Person::new("p1", "Ana");
    let as_record = record(&[("id", ana.id_str()), ("name", ana.name())]);
    assert_eq!(capability.collection(), Person::collection());
    assert_eq!(capability.id(&as_record), Some(ana.id()));
    assert_eq!(capability.indexes(&as_record), Some(ana.indexes()));
}
