use dizzysync::config::{default_true, Config};

#[test]
fn test_config_creation() {
    let config = Config::default();
    assert!(!config.user.cookie.is_empty() || config.user.cookie.is_empty()); // 允许空cookie用于测试
    assert_eq!(config.download.formats.len(), 2);
    assert!(config.download.formats.contains(&"MP3".to_string()));
    assert!(config.download.formats.contains(&"FLAC".to_string()));
}

#[test]
fn default_config_fields() {
    let config = Config::default();
    assert_eq!(config.user.cookie, "");
    assert!(!config.download.flatten);
    assert_eq!(config.paths.output_dir, "./DizzySync");
    assert_eq!(config.paths.directory_template, "{album}/@{label}");
    assert!(config.behavior.skip_existing);
    assert!(config.behavior.single_threaded);
    assert!(config.behavior.generate_readme);
    assert!(config.behavior.generate_nfo);
    assert!(!config.behavior.metadata_only);
    assert!(!config.behavior.debug);
}

#[test]
fn default_true_is_true() {
    assert!(default_true());
}
