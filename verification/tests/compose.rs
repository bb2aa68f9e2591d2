use serde_yaml::{Mapping, Value};
use yammer::DockerComposeFile;

fn mapping(text: &str) -> Mapping {
    serde_yaml::from_str(text).unwrap()
}

fn document(version: Option<&str>, services: Option<&str>) -> DockerComposeFile {
    DockerComposeFile {
        version: version.map(|version| version.to_string()),
        services: services.map(mapping),
    }
}

#[test]
fn service_of_a_document() {
    let compose_file = document(
        Some("3"),
        Some("postgres:\n  build: docker/postgres\n  image: postgres\nredis:\n  image: redis\n"),
    );
    let config = compose_file.get_service("postgres").unwrap();
    let expected = r#"
        build: docker/postgres
        image: postgres"#;
    let expected: Mapping = serde_yaml::from_str(expected).unwrap();
    assert_eq!(config, &expected);
    assert_eq!(
        compose_file.get_service("redis"),
        Some(&mapping("image: redis"))
    );
}

#[test]
fn no_services_at_all() {
    let compose_file = document(Some("3"), None);
    assert_eq!(compose_file.get_service("postgres"), None);
}

#[test]
fn no_service_of_that_name() {
    let compose_file = document(None, Some("postgres:\n  image: postgres\n"));
    assert_eq!(compose_file.get_service("redis"), None);
    assert_eq!(compose_file.get_service(""), None);
    assert_eq!(compose_file.get_service("Postgres"), None);
    assert_eq!(compose_file.get_service("postgres "), None);
}

#[test]
fn entry_that_is_no_mapping_counts_as_missing() {
    let compose_file = document(
        None,
        Some("text: hello\nnumber: 3\nlist: [a, b]\nnothing: ~\nflag: true\nempty: {}\n"),
    );
    assert_eq!(compose_file.get_service("text"), None);
    assert_eq!(compose_file.get_service("number"), None);
    assert_eq!(compose_file.get_service("list"), None);
    assert_eq!(compose_file.get_service("nothing"), None);
    assert_eq!(compose_file.get_service("flag"), None);
    assert_eq!(compose_file.get_service("empty"), Some(&Mapping::new()));
}

#[test]
fn tagged_mapping_is_a_mapping() {
    let compose_file = document(None, Some("db: !custom\n  image: postgres\n"));
    assert!(matches!(
        compose_file.services.as_ref().unwrap().get("db"),
        Some(Value::Tagged(_))
    ));
    assert_eq!(
        compose_file.get_service("db"),
        Some(&mapping("image: postgres"))
    );
}

#[test]
fn only_string_keys_are_names() {
    let compose_file = document(None, Some("3:\n  image: three\ntrue:\n  image: yes\n"));
    assert_eq!(compose_file.get_service("3"), None);
    assert_eq!(compose_file.get_service("true"), None);
    let compose_file = document(None, Some("'3':\n  image: three\n"));
    assert_eq!(compose_file.get_service("3"), Some(&mapping("image: three")));
}

#[test]
fn content_survives_encoding_and_decoding() {
    let text = "web:\n  image: nginx:1.27\n  ports:\n  - 80:80\n  - 443:443\n  environment:\n    DEBUG: false\n    RATIO: 0.5\n    EMPTY: null\n  deploy:\n    replicas: 3\n";
    let compose_file = document(Some("3.8"), Some(text));
    let content = compose_file.get_service("web").unwrap();
    let encoded = serde_yaml::to_string(content).unwrap();
    let decoded: Mapping = serde_yaml::from_str(&encoded).unwrap();
    assert_eq!(&decoded, content);
    assert_eq!(serde_yaml::to_string(&decoded).unwrap(), encoded);

    let whole = serde_yaml::to_string(&Value::Mapping(compose_file.services.clone().unwrap())).unwrap();
    assert_eq!(whole, text);
    let again = document(Some("3.8"), Some(&whole));
    assert_eq!(again.services, compose_file.services);
    assert_eq!(again.version, compose_file.version);
}
