use weaver_resolve::config::{handle_errors, Error, RegistryConfig, RegistryContact, RegistryDependency};

fn invalid(path: &str, msg: &str) -> Error {
    Error::InvalidRegistryConfig {
        path: path.to_owned(),
        error: msg.to_owned(),
    }
}

fn valid_config() -> RegistryConfig {
    RegistryConfig {
        name: "vendor_acme".to_owned(),
        description: None,
        version: "0.1.0".to_owned(),
        owner: RegistryContact {
            name: "ACME".to_owned(),
            email: Some("semconv@acme.com".to_owned()),
            url: Some("https://acme.com".to_owned()),
        },
        maintainers: vec![],
        dependencies: vec![RegistryDependency {
            name: "otel".to_owned(),
            version: "1.27.0".to_owned(),
            repository: "https://github.com/open-telemetry/semantic-conventions".to_owned(),
            alias: Some("otel".to_owned()),
        }],
    }
}

#[test]
fn valid_config_passes() {
    let config = valid_config();
    assert_eq!(config.validate(&"registry.yaml".to_owned()), Ok(()));
    assert_eq!(config.name, "vendor_acme");
    assert_eq!(config.version, "0.1.0");
}

#[test]
fn single_problem_is_reported_alone() {
    let mut config = valid_config();
    config.version = "".to_owned();
    assert_eq!(
        config.validate(&"registry.yaml".to_owned()),
        Err(invalid("registry.yaml", "The registry version is required."))
    );
}

#[test]
fn invalid_config_reports_every_problem() {
    let path = "tests/test_data/invalid_semconv_registry.yaml";
    let config = RegistryConfig {
        name: "".to_owned(),
        description: None,
        version: "".to_owned(),
        owner: RegistryContact {
            name: "".to_owned(),
            email: Some("semconv-registryacme.com".to_owned()),
            url: Some("acme.com".to_owned()),
        },
        maintainers: vec![RegistryContact {
            name: "".to_owned(),
            email: Some("john.doeacme.com".to_owned()),
            url: None,
        }],
        dependencies: vec![RegistryDependency {
            name: "".to_owned(),
            version: "".to_owned(),
            repository: "github.com/acme".to_owned(),
            alias: Some("otel:v1".to_owned()),
        }],
    };
    let expected = Error::CompoundError(vec![
        invalid(path, "The registry name is required."),
        invalid(path, "The registry version is required."),
        invalid(path, "The owner name is required."),
        invalid(path, "The owner email is not a valid email address (invalid email: semconv-registryacme.com)."),
        invalid(path, "The owner URL is not a valid URL (invalid url: acme.com)."),
        invalid(path, "The maintainer name is required."),
        invalid(path, "The maintainer email is not a valid email address (invalid email: john.doeacme.com)."),
        invalid(path, "The dependency name is required."),
        invalid(path, "The dependency version is required."),
        invalid(path, "The dependency repository URL is not a valid URL."),
        invalid(path, "The dependency alias cannot contain a colon (':')."),
    ]);
    assert_eq!(config.validate(&path.to_owned()), Err(expected));
}

#[test]
fn contact_validation_appends() {
    let contact = RegistryContact {
        name: "Jane".to_owned(),
        email: Some("jane@acme.com".to_owned()),
        url: Some("http://acme.com".to_owned()),
    };
    let mut errors = vec![invalid("p", "earlier")];
    assert_eq!(contact.validate(&"p".to_owned(), "maintainer", &mut errors), Ok(()));
    assert_eq!(errors, vec![invalid("p", "earlier")]);
    let bad = RegistryContact { name: "".to_owned(), email: None, url: Some("ftp://x".to_owned()) };
    assert_eq!(bad.validate(&"p".to_owned(), "owner", &mut errors), Ok(()));
    assert_eq!(
        errors,
        vec![
            invalid("p", "earlier"),
            invalid("p", "The owner name is required."),
            invalid("p", "The owner URL is not a valid URL (invalid url: ftp://x)."),
        ]
    );
}

#[test]
fn dependency_without_repository() {
    let dep = RegistryDependency {
        name: "otel".to_owned(),
        version: "1".to_owned(),
        repository: "".to_owned(),
        alias: None,
    };
    let mut errors = vec![];
    assert_eq!(dep.validate(&"p".to_owned(), &mut errors), Ok(()));
    assert_eq!(
        errors,
        vec![
            invalid("p", "The dependency repository URL is required."),
            invalid("p", "The dependency repository URL is not a valid URL."),
        ]
    );
}

#[test]
fn handle_errors_shapes() {
    assert_eq!(handle_errors(vec![]), Ok(()));
    assert_eq!(handle_errors(vec![invalid("p", "a")]), Err(invalid("p", "a")));
    assert_eq!(
        handle_errors(vec![invalid("p", "a"), invalid("p", "b")]),
        Err(Error::CompoundError(vec![invalid("p", "a"), invalid("p", "b")]))
    );
}
