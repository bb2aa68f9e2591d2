use serde_yaml::{Mapping, Value};
use yammer::{DockerComposeFile, MergeError, MergedResult};

fn mapping(text: &str) -> Mapping {
    serde_yaml::from_str(text).unwrap()
}

fn document(version: Option<&str>, services: Option<&str>) -> DockerComposeFile {
    DockerComposeFile {
        version: version.map(|version| version.to_string()),
        services: services.map(mapping),
    }
}

fn names(list: &[&str]) -> Vec<String> {
    list.iter().map(|name| name.to_string()).collect()
}

fn keys(document: &DockerComposeFile) -> Vec<Value> {
    document
        .services
        .as_ref()
        .unwrap()
        .keys()
        .cloned()
        .collect()
}

fn text(key: &str) -> Value {
    Value::String(key.to_string())
}

#[test]
fn nothing_gathered_and_nothing_there() {
    let merged = MergedResult::new();
    assert_eq!(merged.selected_version(), None);
    assert_eq!(merged.finalize(None).err(), Some(MergeError::NoVersion));
}

#[test]
fn no_version_anywhere() {
    let mut merged = MergedResult::new();
    merged.absorb(&document(None, Some("db:\n  image: postgres\n")), &names(&["db"]));
    let existing = document(None, Some("web:\n  image: nginx\n"));
    assert_eq!(
        merged.finalize(Some(existing)).err(),
        Some(MergeError::NoVersion)
    );
}

#[test]
fn one_document() {
    let mut merged = MergedResult::new();
    let remote = document(
        Some("3"),
        Some("db:\n  image: postgres\nweb:\n  image: nginx\ncache:\n  image: redis\n"),
    );
    merged.absorb(&remote, &names(&["web", "db"]));
    assert_eq!(merged.selected_version(), Some(&"3".to_string()));
    let result = merged.finalize(None).unwrap();
    assert_eq!(result.version, Some("3".to_string()));
    assert_eq!(result.get_service("web"), Some(&mapping("image: nginx")));
    assert_eq!(result.get_service("db"), Some(&mapping("image: postgres")));
    assert_eq!(result.get_service("cache"), None);
    assert_eq!(keys(&result), vec![text("web"), text("db")]);
}

#[test]
fn same_document_twice_is_as_once() {
    let remote = document(
        Some("3"),
        Some("db:\n  image: postgres\nweb:\n  image: nginx\n"),
    );
    let asked = names(&["web", "db", "gone"]);

    let mut once = MergedResult::new();
    once.absorb(&remote, &asked);
    let mut twice = MergedResult::new();
    twice.absorb(&remote, &asked);
    twice.absorb(&remote, &asked);

    assert_eq!(once.selected_version(), twice.selected_version());
    let once = once.finalize(None).unwrap();
    let twice = twice.finalize(None).unwrap();
    assert_eq!(once.version, twice.version);
    assert_eq!(once.services, twice.services);
    assert_eq!(keys(&once), keys(&twice));
}

#[test]
fn name_asked_twice_is_kept_once() {
    let remote = document(Some("3"), Some("db:\n  image: postgres\n"));
    let mut merged = MergedResult::new();
    merged.absorb(&remote, &names(&["db", "db"]));
    let result = merged.finalize(None).unwrap();
    assert_eq!(keys(&result), vec![text("db")]);
    assert_eq!(result.get_service("db"), Some(&mapping("image: postgres")));
}

#[test]
fn version_of_the_first_document_that_has_one() {
    let mut merged = MergedResult::new();
    merged.absorb(&document(None, Some("a:\n  image: a\n")), &names(&["a"]));
    assert_eq!(merged.selected_version(), None);
    merged.absorb(&document(Some("3.8"), Some("b:\n  image: b\n")), &names(&["b"]));
    assert_eq!(merged.selected_version(), Some(&"3.8".to_string()));
    merged.absorb(&document(Some("2"), Some("c:\n  image: c\n")), &names(&["c"]));
    assert_eq!(merged.selected_version(), Some(&"3.8".to_string()));
    let result = merged.finalize(None).unwrap();
    assert_eq!(result.version, Some("3.8".to_string()));
    assert_eq!(keys(&result), vec![text("a"), text("b"), text("c")]);
}

#[test]
fn version_is_taken_even_where_no_service_is() {
    let mut merged = MergedResult::new();
    merged.absorb(&document(Some("3.8"), None), &names(&["a"]));
    merged.absorb(&document(Some("2"), Some("a:\n  image: a\n")), &names(&[]));
    let result = merged.finalize(None).unwrap();
    assert_eq!(result.version, Some("3.8".to_string()));
    assert_eq!(result.services, Some(Mapping::new()));
}

#[test]
fn empty_version_is_a_version() {
    let mut merged = MergedResult::new();
    merged.absorb(&document(Some(""), None), &names(&[]));
    merged.absorb(&document(Some("3"), None), &names(&[]));
    assert_eq!(merged.selected_version(), Some(&String::new()));
}

#[test]
fn gathered_version_goes_before_the_existing_one() {
    let mut merged = MergedResult::new();
    merged.absorb(&document(Some("3.8"), None), &names(&[]));
    let result = merged.finalize(Some(document(Some("2"), None))).unwrap();
    assert_eq!(result.version, Some("3.8".to_string()));
}

#[test]
fn existing_version_where_none_was_gathered() {
    let mut merged = MergedResult::new();
    merged.absorb(&document(None, Some("a:\n  image: a\n")), &names(&["a"]));
    let result = merged.finalize(Some(document(Some("2"), None))).unwrap();
    assert_eq!(result.version, Some("2".to_string()));
    assert_eq!(result.get_service("a"), Some(&mapping("image: a")));
}

#[test]
fn only_an_existing_document() {
    let existing = document(Some("2"), Some("db:\n  image: postgres:12\n"));
    let result = MergedResult::new().finalize(Some(existing.clone())).unwrap();
    assert_eq!(result.version, existing.version);
    assert_eq!(result.services, existing.services);
}

#[test]
fn gathered_service_takes_the_place_of_the_existing_one() {
    let existing = document(
        Some("2"),
        Some("db:\n  image: postgres:12\n  restart: always\nweb:\n  image: nginx\n"),
    );
    let remote = document(Some("3"), Some("db:\n  image: postgres:16\n"));
    let mut merged = MergedResult::new();
    merged.absorb(&remote, &names(&["db"]));
    let result = merged.finalize(Some(existing)).unwrap();
    assert_eq!(result.version, Some("3".to_string()));
    assert_eq!(result.get_service("db"), Some(&mapping("image: postgres:16")));
    assert_eq!(result.get_service("web"), Some(&mapping("image: nginx")));
    assert_eq!(keys(&result), vec![text("db"), text("web")]);
}

#[test]
fn existing_entries_that_nothing_was_gathered_for_stay() {
    let existing = document(
        Some("2"),
        Some("web:\n  image: nginx\nnote: hello\n7:\n  image: seven\n"),
    );
    let remote = document(None, Some("db:\n  image: postgres\n"));
    let mut merged = MergedResult::new();
    merged.absorb(&remote, &names(&["db"]));
    let result = merged.finalize(Some(existing)).unwrap();
    let services = result.services.as_ref().unwrap();
    assert_eq!(services.len(), 4);
    assert_eq!(services.get("web"), Some(&Value::Mapping(mapping("image: nginx"))));
    assert_eq!(services.get("note"), Some(&text("hello")));
    assert_eq!(
        services.get(Value::Number(7.into())),
        Some(&Value::Mapping(mapping("image: seven")))
    );
    assert_eq!(services.get("db"), Some(&Value::Mapping(mapping("image: postgres"))));
}

#[test]
fn later_document_takes_the_place_of_an_earlier_one() {
    let mut merged = MergedResult::new();
    merged.absorb(
        &document(Some("3"), Some("db:\n  image: postgres:12\nweb:\n  image: nginx\n")),
        &names(&["db", "web"]),
    );
    merged.absorb(
        &document(Some("3"), Some("db:\n  image: postgres:16\n")),
        &names(&["db", "web"]),
    );
    let result = merged.finalize(None).unwrap();
    assert_eq!(result.get_service("db"), Some(&mapping("image: postgres:16")));
    assert_eq!(result.get_service("web"), Some(&mapping("image: nginx")));
    assert_eq!(keys(&result), vec![text("db"), text("web")]);
}

#[test]
fn missing_service_gives_no_entry() {
    let remote = document(Some("3"), Some("db:\n  image: postgres\n"));
    let mut merged = MergedResult::new();
    merged.absorb(&remote, &names(&["cache", "db", "web"]));
    let result = merged.finalize(None).unwrap();
    assert_eq!(keys(&result), vec![text("db")]);
    assert_eq!(result.get_service("cache"), None);
    assert_eq!(result.get_service("web"), None);
}

#[test]
fn entry_that_is_no_mapping_is_not_gathered() {
    let remote = document(Some("3"), Some("db: postgres\nweb:\n  image: nginx\n"));
    let existing = document(None, Some("db:\n  image: kept\n"));
    let mut merged = MergedResult::new();
    merged.absorb(&remote, &names(&["db", "web"]));
    let result = merged.finalize(Some(existing)).unwrap();
    assert_eq!(result.get_service("db"), Some(&mapping("image: kept")));
    assert_eq!(result.get_service("web"), Some(&mapping("image: nginx")));
}

#[test]
fn failed_attempt_is_handed_back_and_changes_nothing() {
    let mut merged = MergedResult::new();
    let first: Result<DockerComposeFile, String> =
        Ok(document(None, Some("a:\n  image: a\n")));
    assert_eq!(merged.record(first, &names(&["a"])), None);
    let second: Result<DockerComposeFile, String> = Err("no route to host".to_string());
    assert_eq!(
        merged.record(second, &names(&["b"])),
        Some("no route to host".to_string())
    );
    assert_eq!(merged.selected_version(), None);
    let third: Result<DockerComposeFile, String> =
        Ok(document(Some("3.8"), Some("c:\n  image: c\n")));
    assert_eq!(merged.record(third, &names(&["c"])), None);
    let result = merged.finalize(None).unwrap();
    assert_eq!(result.version, Some("3.8".to_string()));
    assert_eq!(keys(&result), vec![text("a"), text("c")]);
}

#[test]
fn every_attempt_failed() {
    let mut merged = MergedResult::new();
    let failed: Result<DockerComposeFile, u32> = Err(404);
    assert_eq!(merged.record(failed, &names(&["a"])), Some(404));
    assert_eq!(merged.finalize(None).err(), Some(MergeError::NoVersion));
}

#[test]
fn gathered_content_is_a_copy() {
    let text = "web:\n  image: nginx:1.27\n  ports:\n  - 80:80\n  environment:\n    RATIO: 0.5\n    EMPTY: null\n";
    let remote = document(Some("3"), Some(text));
    let mut merged = MergedResult::new();
    merged.absorb(&remote, &names(&["web"]));
    let result = merged.finalize(None).unwrap();
    assert_eq!(result.services, remote.services);
    assert_eq!(
        serde_yaml::to_string(result.services.as_ref().unwrap()).unwrap(),
        text
    );
}

#[test]
fn gather_takes_the_outcomes_in_their_order() {
    let outcomes: Vec<(Result<DockerComposeFile, String>, Vec<String>)> = vec![
        (Ok(document(None, Some("db:\n  image: postgres:12\n"))), names(&["db", "web"])),
        (Err("timed out".to_string()), names(&["cache"])),
        (Ok(document(Some("3.8"), Some("db:\n  image: postgres:16\nweb:\n  image: nginx\n"))), names(&["web", "db"])),
        (Err("not found".to_string()), names(&[])),
        (Ok(document(Some("2"), Some("web:\n  image: caddy\n"))), names(&["web"])),
    ];
    let (merged, failures) = MergedResult::gather(outcomes);
    assert_eq!(failures, vec!["timed out".to_string(), "not found".to_string()]);
    assert_eq!(merged.selected_version(), Some(&"3.8".to_string()));
    let result = merged.finalize(None).unwrap();
    assert_eq!(result.get_service("db"), Some(&mapping("image: postgres:16")));
    assert_eq!(result.get_service("web"), Some(&mapping("image: caddy")));
    assert_eq!(result.get_service("cache"), None);
    assert_eq!(keys(&result), vec![text("db"), text("web")]);
}

#[test]
fn gather_of_nothing() {
    let outcomes: Vec<(Result<DockerComposeFile, String>, Vec<String>)> = Vec::new();
    let (merged, failures) = MergedResult::gather(outcomes);
    assert!(failures.is_empty());
    assert_eq!(merged.selected_version(), None);
    assert_eq!(merged.finalize(None).err(), Some(MergeError::NoVersion));
}

#[test]
fn gather_is_record_by_record() {
    let first = document(Some("3"), Some("a:\n  image: a\nb:\n  image: b\n"));
    let second = document(Some("4"), Some("b:\n  image: other\n"));
    let (gathered, failures) = MergedResult::gather(vec![
        (Ok(first.clone()), names(&["a", "b"])),
        (Err(7), names(&["a"])),
        (Ok(second.clone()), names(&["b", "c"])),
        (Ok(second.clone()), names(&["b", "c"])),
    ]);
    let mut recorded = MergedResult::new();
    let mut reports: Vec<i32> = Vec::new();
    reports.extend(recorded.record::<i32>(Ok(first), &names(&["a", "b"])));
    reports.extend(recorded.record::<i32>(Err(7), &names(&["a"])));
    reports.extend(recorded.record::<i32>(Ok(second), &names(&["b", "c"])));
    assert_eq!(failures, reports);
    assert_eq!(gathered.selected_version(), recorded.selected_version());
    let gathered = gathered.finalize(None).unwrap();
    let recorded = recorded.finalize(None).unwrap();
    assert_eq!(gathered.services, recorded.services);
    assert_eq!(keys(&gathered), keys(&recorded));
}
