use yammer::GithubFileSpec;

#[test]
fn new_keeps_the_four_fields() {
    let spec = GithubFileSpec::new("a", "b", "c", "d");
    assert_eq!(spec.project, "a");
    assert_eq!(spec.repository, "b");
    assert_eq!(spec.branch, "c");
    assert_eq!(spec.filepath, "d");
}

#[test]
fn url_of_a_file() {
    let spec = GithubFileSpec::new(
        "Data4Democracy".to_string(),
        "docker-scaffolding".to_string(),
        "master".to_string(),
        "docker-compose.yml".to_string(),
    );
    assert_eq!(
        spec.get_url(),
        "https://raw.githubusercontent.com/Data4Democracy/docker-scaffolding/refs/heads/master/docker-compose.yml"
    );
}

#[test]
fn url_escapes_nothing() {
    let spec = GithubFileSpec::new(
        "o w".to_string(),
        "r/s".to_string(),
        "feature/x y".to_string(),
        "dir/f?.yml".to_string(),
    );
    assert_eq!(
        spec.get_url(),
        "https://raw.githubusercontent.com/o w/r/s/refs/heads/feature/x y/dir/f?.yml"
    );
}

#[test]
fn url_of_empty_fields() {
    let spec = GithubFileSpec::new(String::new(), String::new(), String::new(), String::new());
    assert_eq!(
        spec.get_url(),
        "https://raw.githubusercontent.com///refs/heads//"
    );
}

#[test]
fn url_of_a_parsed_specification() {
    let parsed: yammer::ComposeServiceGithubSpec<String> =
        "omnivore-app/omnivore+main:docker-compose.yml@redis".parse().unwrap();
    assert_eq!(
        parsed.spec.get_url(),
        "https://raw.githubusercontent.com/omnivore-app/omnivore/refs/heads/main/docker-compose.yml"
    );
}
