use engine_core::migrations_directory::{
    error_on_changed_provider, file_name, found_provider, match_provider_in_lock_file,
    migration_directory_name, migration_lock_file_content, migration_order,
    MIGRATION_LOCK_FILENAME, MIGRATION_SCRIPT_FILENAME,
};

fn provider_by_std(content: &str) -> String {
    content
        .lines()
        .find(|line| line.starts_with("provider"))
        .map(|line| line.trim_start_matches("provider = ").trim_matches('"'))
        .unwrap_or("<PROVIDER NOT FOUND>")
        .to_owned()
}

#[test]
fn file_names() {
    assert_eq!(MIGRATION_SCRIPT_FILENAME, "migration");
    assert_eq!(MIGRATION_LOCK_FILENAME, "migration_lock");
    assert_eq!(file_name(MIGRATION_LOCK_FILENAME, "toml"), "migration_lock.toml");
    assert_eq!(file_name(MIGRATION_SCRIPT_FILENAME, "sql"), "migration.sql");
}

#[test]
fn directory_name_is_timestamp_then_name() {
    assert_eq!(migration_directory_name("20210304121314", "init"), "20210304121314_init");
    assert_eq!(migration_directory_name("20210304121314", ""), "20210304121314_");
}

#[test]
fn lock_file_names_the_provider() {
    assert_eq!(
        migration_lock_file_content("postgresql"),
        "# Please do not edit this file manually\n# It should be added in your version-control system (i.e. Git)\nprovider = \"postgresql\""
    );
}

#[test]
fn lock_file_round_trip() {
    for provider in ["postgresql", "mysql", "sqlite", "mongodb", "", "a b"] {
        let content = migration_lock_file_content(provider);
        assert_eq!(found_provider(&content), provider);
        assert_eq!(match_provider_in_lock_file(Some(&content), provider), Some(Ok(())));
    }
}

#[test]
fn provider_is_read_as_the_standard_library_reads_it() {
    let contents = [
        "",
        "\n",
        "provider",
        "provider = \"sqlite\"",
        "provider = \"sqlite\"\n",
        "provider = \"sqlite\"\r\n",
        "provider = \"sqlite\"\r",
        "# comment\nprovider = \"mysql\"\nprovider = \"other\"\n",
        "# comment\r\nprovider = \"mysql\"\r\n",
        "  provider = \"mysql\"\n",
        "x\nproviders = \"mysql\"\n",
        "provider = provider = \"\"mysql\"\"\n",
        "provider = provider =\n",
        "provider=\"mysql\"",
        "provider = \"\"\"\n",
        "provider = \"a\"b\"\n",
        "no such line\nat all",
        "\n\nprovider = \"x\"",
        "prov\nider = \"x\"",
        "provider = \"caf\u{e9}\"\n",
        "\r\nprovider = \"x\"\r\n\r\n",
        "provider = \"x\"\n\r",
    ];
    for content in contents {
        assert_eq!(found_provider(content), provider_by_std(content), "content: {:?}", content);
    }
}

#[test]
fn lock_file_without_provider_line() {
    assert_eq!(found_provider("# nothing here\n"), "<PROVIDER NOT FOUND>");
    assert_eq!(
        match_provider_in_lock_file(Some("# nothing here\n"), "sqlite"),
        Some(Err("<PROVIDER NOT FOUND>".to_string()))
    );
}

#[test]
fn no_lock_file_means_nothing_to_check() {
    assert_eq!(match_provider_in_lock_file(None, "sqlite"), None);
    assert!(error_on_changed_provider(None, "sqlite").is_ok());
}

#[test]
fn matching_provider_is_accepted() {
    let content = "provider = \"sqlite\"";
    assert_eq!(match_provider_in_lock_file(Some(content), "sqlite"), Some(Ok(())));
    assert!(error_on_changed_provider(Some(content), "sqlite").is_ok());
}

#[test]
fn changed_provider_is_an_error_that_names_both() {
    let content = "provider = \"sqlite\"";
    assert_eq!(
        match_provider_in_lock_file(Some(content), "postgresql"),
        Some(Err("sqlite".to_string()))
    );
    let error = error_on_changed_provider(Some(content), "postgresql").unwrap_err();
    assert_eq!(error.provider, "postgresql");
    assert_eq!(error.expected_provider, "sqlite");
}

fn order_by_std(names: &[String]) -> Vec<usize> {
    let mut order: Vec<usize> = (0..names.len()).collect();
    order.sort_by(|a, b| names[*a].as_str().cmp(names[*b].as_str()));
    order
}

#[test]
fn migrations_are_ordered_by_name() {
    let names: Vec<String> = ["20210102_b", "20200101_init", "20210102_a", "20191231_x"]
        .iter()
        .map(|s| s.to_string())
        .collect();
    assert_eq!(migration_order(&names), vec![3, 1, 2, 0]);
}

#[test]
fn migrations_are_ordered_as_the_standard_library_sorts() {
    let lists: Vec<Vec<&str>> = vec![
        vec![],
        vec!["a"],
        vec!["b", "a"],
        vec!["a", "a", "a"],
        vec!["b", "a", "b", "a"],
        vec!["ab", "a", "abc", "", "b", "aa"],
        vec!["Z", "a", "z", "A", "0", "_"],
        vec!["\u{e9}", "e", "f", "\u{1F600}", "\u{ffff}", "z"],
        vec!["10", "9", "1", "100", "2"],
    ];
    for list in lists {
        let names: Vec<String> = list.iter().map(|s| s.to_string()).collect();
        assert_eq!(migration_order(&names), order_by_std(&names), "names: {:?}", names);
    }
}
