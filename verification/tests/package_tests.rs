use pscm::modules::{dynamic_eval_namespace, mark_loaded, require_reason, require_synthetic, require_target, should_load_mod, Module, RequireTarget};
use pscm::package::{check_for_update, contents_url, download_dir_name, file_url, is_built_in_pkg, manifest_url, next_dep_action, DepAction, DepEvent, Package, PackageError};
use pscm::text::{is_exit_command, is_yes};

fn pkg(name: &str, version: &str) -> Package {
    Package { name: name.to_string(), version: version.to_string(), description: String::new(), requires: vec![] }
}

#[test]
fn only_base_is_built_in() {
    assert!(is_built_in_pkg("base"));
    assert!(!is_built_in_pkg("bases"));
    assert!(!is_built_in_pkg(""));
}

#[test]
fn an_update_is_a_different_version() {
    assert_eq!(check_for_update(pkg("a", "0.1.0"), Ok(pkg("a", "0.2.0"))), Ok(true));
    assert_eq!(check_for_update(pkg("a", "0.1.0"), Ok(pkg("a", "0.1.0"))), Ok(false));
    let e = PackageError::Reason("Package a not found".to_string());
    assert_eq!(check_for_update(pkg("a", "0.1.0"), Err(e.clone())), Err(e));
}

#[test]
fn urls_are_built_from_the_package_name() {
    assert_eq!(manifest_url("lists"), "https://raw.githubusercontent.com/lillycat332/pscm-mods/main/lists/lists.pscmpkg");
    assert_eq!(contents_url("lists"), "https://api.github.com/repos/lillycat332/pscm-mods/contents/lists");
    assert_eq!(file_url("lists/a.scm"), "https://raw.githubusercontent.com/lillycat332/pscm-mods/main/lists/a.scm");
    assert_eq!(download_dir_name("lists", "0.1.0"), "lists-0.1.0");
}

#[test]
fn dependency_steps() {
    assert_eq!(next_dep_action("base", DepEvent::Listed), DepAction::SkipBuiltIn);
    assert_eq!(next_dep_action("lists", DepEvent::Listed), DepAction::FetchManifest);
    assert_eq!(next_dep_action("lists", DepEvent::ManifestFetched(false)), DepAction::FailFetch);
    assert_eq!(next_dep_action("lists", DepEvent::ManifestFetched(true)), DepAction::CheckInstalled);
    assert_eq!(next_dep_action("lists", DepEvent::InstalledChecked(false)), DepAction::Install);
    assert_eq!(next_dep_action("lists", DepEvent::InstalledChecked(true)), DepAction::CheckUpdate);
    assert_eq!(next_dep_action("lists", DepEvent::UpdateChecked(true)), DepAction::Install);
    assert_eq!(next_dep_action("lists", DepEvent::UpdateChecked(false)), DepAction::UpToDate);
}

#[test]
fn answers_and_commands_are_trimmed() {
    assert!(is_yes(" y\n"));
    assert!(!is_yes("yes"));
    assert!(is_exit_command("quit\n"));
    assert!(is_exit_command("\tq "));
    assert!(is_exit_command("exit"));
    assert!(!is_exit_command("(exit)"));
    assert!(is_yes("\u{3000}y\u{a0}"));
}

#[test]
fn modules_are_loaded_once() {
    let mut ms: Vec<Module> = vec![];
    assert!(should_load_mod("base", &ms));
    assert!(mark_loaded(&mut ms, "base", "<default>"));
    assert!(!mark_loaded(&mut ms, "base", "again"));
    assert_eq!(ms.len(), 1);
    assert!(!should_load_mod("base", &ms));
}

#[test]
fn synthetic_modules_get_a_suffix() {
    let mut ms: Vec<Module> = vec![];
    assert!(require_synthetic(Some("sys"), "why", &mut ms).is_ok());
    assert_eq!(ms[0], Module { name: "sys<synthetic>".to_string(), loaded_from: "why".to_string() });
    // A module already loaded is not loaded again.
    assert!(require_synthetic(Some("sys"), "again", &mut ms).is_ok());
    assert_eq!(ms.len(), 1);
    // A file module named like the bare name does not count as loaded.
    let mut ms2: Vec<Module> = vec![Module { name: "sys".to_string(), loaded_from: "file".to_string() }];
    assert!(require_synthetic(Some("sys"), "why", &mut ms2).is_ok());
    assert_eq!(ms2.len(), 2);
    assert_eq!(ms2[1].name, "sys<synthetic>");
}

#[test]
fn require_names_pick_a_module() {
    assert_eq!(require_target("sys"), RequireTarget::Sys);
    assert_eq!(require_target("unsafe"), RequireTarget::Unsafe);
    assert_eq!(require_target("imperative/constructs"), RequireTarget::ImperativeConstructs);
    assert_eq!(require_target("base"), RequireTarget::File);
    assert_eq!(require_reason(Some("m")), "loaded by require from m");
    assert_eq!(require_reason(None), "loaded by require from unknown");
    assert_eq!(dynamic_eval_namespace(None), "<eval>::<dynamic eval>");
    assert_eq!(dynamic_eval_namespace(Some("f")), "f::<dynamic eval>");
}
