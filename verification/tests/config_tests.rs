use bnotes::{LibraryConfig, MemoryStorage, Storage};

#[test]
fn test_load_config_from_bnotes_dir() {
    let mut storage = MemoryStorage::new();
    storage
        .write(
            ".bnotes/config.toml",
            r#"
template_dir = "my-templates"

[periodic]
daily_template = "custom-daily.md"
"#,
        )
        .unwrap();

    let config = LibraryConfig::load(&storage).unwrap();
    assert_eq!(config.template_dir, "my-templates");
    assert_eq!(config.periodic.daily_template, "custom-daily.md");
}

#[test]
fn test_load_config_from_root() {
    let mut storage = MemoryStorage::new();
    storage
        .write(
            "config.toml",
            r#"
template_dir = ".my-templates"

[periodic]
weekly_template = "custom-weekly.md"
"#,
        )
        .unwrap();

    let config = LibraryConfig::load(&storage).unwrap();
    assert_eq!(config.template_dir, ".my-templates");
    assert_eq!(config.periodic.weekly_template, "custom-weekly.md");
}

#[test]
fn test_load_or_default_with_no_config() {
    let storage = MemoryStorage::new();
    let config = LibraryConfig::load_or_default(&storage);

    assert_eq!(config.template_dir, ".templates");
    assert_eq!(config.periodic.daily_template, "daily.md");
    assert_eq!(config.periodic.weekly_template, "weekly.md");
    assert_eq!(config.periodic.quarterly_template, "quarterly.md");
}

#[test]
fn test_prefers_bnotes_dir_over_root() {
    let mut storage = MemoryStorage::new();
    storage
        .write("config.toml", r#"template_dir = "root-templates""#)
        .unwrap();
    storage
        .write(".bnotes/config.toml", r#"template_dir = "bnotes-templates""#)
        .unwrap();

    let config = LibraryConfig::load(&storage).unwrap();
    assert_eq!(config.template_dir, "bnotes-templates");
}
