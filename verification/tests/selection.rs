use table_deps::TableDepsOption;
use table_deps::selected_indices;
use table_deps::use_default_members;

fn names() -> Vec<String> {
    vec!["alpha".to_string(), "beta".to_string(), "gamma".to_string()]
}

#[test]
fn no_flags_means_default_members() {
    let option = TableDepsOption::new(None, vec![], false, vec![], false);
    assert!(use_default_members(&option));
}

#[test]
fn package_set_disables_default_members() {
    let option = TableDepsOption::new(None, vec!["beta".to_string()], false, vec![], false);
    assert!(!use_default_members(&option));
    assert_eq!(selected_indices(&names(), &option), vec![1]);
}

#[test]
fn workspace_selects_everything() {
    let option = TableDepsOption::new(None, vec![], true, vec![], false);
    assert!(!use_default_members(&option));
    assert_eq!(selected_indices(&names(), &option), vec![0, 1, 2]);
}

#[test]
fn workspace_exclusion_drops_named_packages() {
    let option = TableDepsOption::new(
        None,
        vec![],
        true,
        vec!["beta".to_string(), "missing".to_string()],
        false,
    );
    assert_eq!(selected_indices(&names(), &option), vec![0, 2]);
}

#[test]
fn unknown_package_selects_nothing() {
    let option = TableDepsOption::new(None, vec!["missing".to_string()], false, vec![], false);
    assert_eq!(selected_indices(&names(), &option), Vec::<usize>::new());
}

#[test]
fn getters_return_the_given_options() {
    let option = TableDepsOption::new(
        Some("a/Cargo.toml".to_string()),
        vec!["p".to_string()],
        false,
        vec![],
        true,
    );
    assert_eq!(option.manifest_path().as_deref(), Some("a/Cargo.toml"));
    assert_eq!(option.package(), &vec!["p".to_string()]);
    assert!(!option.workspace());
    assert!(option.exclude().is_empty());
    assert!(option.dry_run());
}
