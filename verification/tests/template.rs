use dhl::{Substitution, TemplateEngine, TemplateGenerationError};

fn test_simple(t: &TemplateEngine) {
    assert_eq!(t.render("", None).unwrap(), "");
    assert_eq!(t.render("", Some("10")).unwrap(), "");

    assert_eq!(t.render("foo", None).unwrap(), "foo");
    assert_eq!(t.render("foo", Some("10")).unwrap(), "foo");

    assert_eq!(t.render("{{version}}", Some("10")).unwrap(), "10");
    assert_eq!(t.render("foo{{version}}", Some("10")).unwrap(), "foo10");
}

#[test]
fn test_version() {
    let t = TemplateEngine::new(Vec::new(), None, &Vec::new()).unwrap();
    test_simple(&t);
}

#[test]
fn test_value() {
    let subs = vec![(
        "dhl_val".to_string(),
        Substitution::Value("dhl_test_value".to_string()),
    )];
    let t = TemplateEngine::new(subs, None, &Vec::new()).unwrap();
    test_simple(&t);
    assert_eq!(t.render("{{dhl_val}}", None).unwrap(), "dhl_test_value");
    assert_eq!(t.render("foo{{dhl_val}}", None).unwrap(), "foodhl_test_value");
}

#[test]
fn test_env() {
    let env = vec![(
        "DHL_TEST_ENV_VAR".to_string(),
        Some("dhl_test_env_val".to_string()),
    )];
    let subs = vec![(
        "dhl_var".to_string(),
        Substitution::EnvironmentVariable("DHL_TEST_ENV_VAR".to_string()),
    )];
    let t = TemplateEngine::new(subs, None, &env).unwrap();
    test_simple(&t);
    assert_eq!(t.render("{{dhl_var}}", None).unwrap(), "dhl_test_env_val");
    assert_eq!(t.render("foo{{dhl_var}}", None).unwrap(), "foodhl_test_env_val");
}

#[test]
fn missing_env_var_names_the_variable() {
    let subs = vec![(
        "dhl_var".to_string(),
        Substitution::EnvironmentVariable("DHL_NO_SUCH_VAR".to_string()),
    )];
    match TemplateEngine::new(subs, None, &Vec::new()) {
        Err(TemplateGenerationError::EnvError(name)) => assert_eq!(name, "DHL_NO_SUCH_VAR"),
        _ => panic!("expected the environment error"),
    }
}

#[test]
fn declared_version_substitution_wins_over_package_version() {
    let subs = vec![(
        "version".to_string(),
        Substitution::Value("pinned".to_string()),
    )];
    let t = TemplateEngine::new(subs, None, &Vec::new()).unwrap();
    assert_eq!(t.render("{{version}}", Some("10")).unwrap(), "pinned");
}

#[test]
fn rustc_version_joins_the_data() {
    let t = TemplateEngine::new(Vec::new(), Some("rustc 1.0.0".to_string()), &Vec::new()).unwrap();
    assert_eq!(t.render("{{rustc_short_version}}", None).unwrap(), "rustc 1.0.0");
}
