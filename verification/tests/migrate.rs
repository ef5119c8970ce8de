use counter_bookmarks::migrate::migration_2024_12_03_001;
use counter_bookmarks::migrate::migration_2024_12_10_001;
use counter_bookmarks::migrate::{all_migration_version, versions_to_run};

#[test]
fn migration_2024_12_03_001_migrate_works() {
    let old_state = migration_2024_12_03_001::OldState { count: 3 };

    let state = migration_2024_12_03_001::migrate_state(old_state);

    assert_eq!(
        state,
        migration_2024_12_03_001::NewState { count: 3, count_increment_count: 0 },
    );
}

#[test]
fn migration_2024_12_10_001_migrate_works() {
    let old_config = migration_2024_12_10_001::OldConfig {
        contract_manager: "contract_manager".to_string(),
    };

    let new_config = migration_2024_12_10_001::execute(old_config, "cosmos2contract".to_string());

    assert_eq!(
        new_config,
        migration_2024_12_10_001::NewConfig {
            contract_manager: "contract_manager".to_string(),
            contract_address: "cosmos2contract".to_string(),
        },
    );
}

#[test]
fn migrate_works_without_schema_migration_versions_saved() {
    // nothing saved: the last version reads as "none" and every migration runs
    let schema_migration_versions_run: Vec<String> = Vec::new();
    let last_version = schema_migration_versions_run.last().cloned();
    assert_eq!(last_version, None);

    let to_run = versions_to_run(&schema_migration_versions_run);
    assert_eq!(to_run, all_migration_version());
    assert_eq!(to_run.join(", "), "2024_12_03_001, 2024_12_10_001");
}

#[test]
fn migrate_works_with_all_schema_migration_versions_saved() {
    // everything saved: the last version is the newest and nothing runs
    let schema_migration_versions_run = all_migration_version();
    assert_eq!(
        schema_migration_versions_run.last().cloned(),
        all_migration_version().last().cloned(),
    );

    let to_run = versions_to_run(&schema_migration_versions_run);
    assert_eq!(to_run, Vec::<String>::new());
}
