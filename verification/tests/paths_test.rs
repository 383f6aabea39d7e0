use skillsrs::paths::{PathsConfig, SkillsPaths};
use tempfile::TempDir;

fn text(p: &std::path::Path) -> String {
    p.to_str().unwrap().to_string()
}

#[test]
fn paths_test_system_paths() {
    let paths = SkillsPaths::new().expect("Should create system paths");

    assert!(!paths.data_dir.is_empty());
    assert!(!paths.config_dir.is_empty());
    assert!(!paths.cache_dir.is_empty());
    assert!(!paths.database_path.is_empty());
    assert!(!paths.skills_root.is_empty());
    assert!(!paths.logs_dir.is_empty());
}

#[test]
fn paths_test_test_system_paths() {
    let paths = SkillsPaths::new().expect("Should create system paths");

    assert!(!paths.data_dir.is_empty());
    assert!(!paths.config_dir.is_empty());
    assert!(!paths.cache_dir.is_empty());
    assert!(!paths.database_path.is_empty());
    assert!(!paths.skills_root.is_empty());
    assert!(!paths.logs_dir.is_empty());
}

#[test]
fn paths_test_custom_root() {
    let temp_dir = TempDir::new().unwrap();
    let paths = SkillsPaths::with_root(temp_dir.path().to_str().unwrap());

    assert_eq!(paths.data_dir, text(temp_dir.path()));
    assert_eq!(paths.config_dir, text(&temp_dir.path().join("config")));
    assert_eq!(paths.cache_dir, text(&temp_dir.path().join("cache")));
    assert_eq!(paths.database_path, text(&temp_dir.path().join("skills.db")));
    assert_eq!(paths.skills_root, text(&temp_dir.path().join("skills")));
    assert_eq!(paths.logs_dir, text(&temp_dir.path().join("logs")));
}

#[test]
fn paths_test_test_custom_root() {
    let temp_dir = TempDir::new().unwrap();
    let paths = SkillsPaths::with_root(temp_dir.path().to_str().unwrap());

    assert_eq!(paths.data_dir, text(temp_dir.path()));
    assert_eq!(paths.config_dir, text(&temp_dir.path().join("config")));
    assert_eq!(paths.cache_dir, text(&temp_dir.path().join("cache")));
    assert_eq!(paths.database_path, text(&temp_dir.path().join("skills.db")));
    assert_eq!(paths.skills_root, text(&temp_dir.path().join("skills")));
    assert_eq!(paths.logs_dir, text(&temp_dir.path().join("logs")));
}

#[test]
fn paths_test_path_overrides() {
    let temp_dir = TempDir::new().unwrap();
    let custom_skills = text(&temp_dir.path().join("custom_skills"));

    let mut config = PathsConfig::none();
    config.skills_root = Some(custom_skills.clone());

    let paths = config.apply_to(SkillsPaths::new().unwrap());
    assert_eq!(paths.skills_root, custom_skills);
}

#[test]
fn paths_test_test_path_overrides() {
    let temp_dir = TempDir::new().unwrap();
    let custom_skills = text(&temp_dir.path().join("custom_skills"));

    let mut config = PathsConfig::none();
    config.skills_root = Some(custom_skills.clone());

    let paths = config.apply_to(SkillsPaths::new().unwrap());
    assert_eq!(paths.skills_root, custom_skills);
}

#[test]
fn paths_test_display() {
    let temp_dir = TempDir::new().unwrap();
    let paths = SkillsPaths::with_root(temp_dir.path().to_str().unwrap());

    let display = paths.display();
    assert!(display.contains("Data directory"));
    assert!(display.contains("Skills root"));
    assert!(display.contains(temp_dir.path().to_str().unwrap()));
}

#[test]
fn paths_test_test_display() {
    let temp_dir = TempDir::new().unwrap();
    let paths = SkillsPaths::with_root(temp_dir.path().to_str().unwrap());

    let display = paths.display();
    assert!(display.contains("Data directory"));
    assert!(display.contains("Skills root"));
    assert!(display.contains(temp_dir.path().to_str().unwrap()));
}

#[test]
fn join_adds_one_separator() {
    assert_eq!(skillsrs::paths::join_path("/a/b", "c"), "/a/b/c");
    assert_eq!(skillsrs::paths::join_path("/a/b/", "c"), "/a/b/c");
    assert_eq!(skillsrs::paths::join_path("", "c"), "c");
}

#[test]
fn database_dir_is_parent_of_database() {
    let paths = SkillsPaths::with_root("/srv/skills");
    assert_eq!(paths.database_dir(), "/srv/skills");
    assert_eq!(paths.default_config_file(), "/srv/skills/config/config.yaml");
    let mut p = SkillsPaths::with_root("/");
    p.database_path = "/".to_string();
    assert_eq!(p.try_database_dir(), None);
}
