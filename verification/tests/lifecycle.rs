use plugin_runtime::manager::{
    LoadOutcome, LoadReport, LoaderError, LoaderInfo, ManagerError, ManagerRef, PluginManager,
    PluginMetadata, ServerRef,
};

fn metadata(name: &str) -> PluginMetadata {
    PluginMetadata {
        name: name.to_string(),
        version: "1.0.0".to_string(),
        authors: "tester".to_string(),
        description: "test plugin".to_string(),
    }
}

fn ready_manager() -> PluginManager {
    let mut m = PluginManager::new();
    m.set_server(ServerRef { id: 1 });
    m.set_self_ref(ManagerRef { id: 1 });
    m
}

fn load(m: &mut PluginManager, path: &str, name: &str, can_unload: bool) {
    let r = m.try_load_plugin(
        path,
        LoadOutcome::HookSucceeded {
            metadata: metadata(name),
            instance: 1,
            loader: 1,
            loader_data: 1,
            can_unload,
        },
    );
    assert!(matches!(r, Ok(LoadReport::Loaded)));
}

#[test]
fn unaccepted_file_is_pended_and_retried_after_new_loader() {
    let mut m = ready_manager();
    m.add_loader(LoaderInfo { loader: 1, can_unload: true });

    let r = m.try_load_plugin("plugins/thing.lua", LoadOutcome::NotAccepted);
    match r {
        Err(ManagerError::PluginNotFound(p)) => assert_eq!(p, "plugins/thing.lua"),
        _ => panic!("expected PluginNotFound"),
    }
    assert_eq!(m.loaded_plugins().len(), 0);
    assert_eq!(m.unloaded_files.len(), 1);
    assert_eq!(m.unloaded_files[0], "plugins/thing.lua");

    // A loader that accepts the file arrives; the caller retries the
    // pending paths it gets back.
    let pending = m.add_loader(LoaderInfo { loader: 2, can_unload: true });
    assert_eq!(pending, vec!["plugins/thing.lua".to_string()]);
    load(&mut m, "plugins/thing.lua", "thing", true);

    assert_eq!(m.loaded_plugins().len(), 1);
    assert_eq!(m.loaded_plugins()[0].name, "thing");
    assert_eq!(m.unloaded_files.len(), 0);
}

#[test]
fn unknown_name_is_plugin_not_found_and_changes_nothing() {
    let mut m = ready_manager();
    load(&mut m, "plugins/a.so", "a", true);
    let r = m.unload_plugin("ghost");
    match r {
        Err(ManagerError::PluginNotFound(p)) => assert_eq!(p, "ghost"),
        _ => panic!("expected PluginNotFound"),
    }
    assert_eq!(m.loaded_plugins().len(), 1);
    assert!(m.is_plugin_active("a"));
}

#[test]
fn unload_with_releasing_loader_removes_the_plugin() {
    let mut m = ready_manager();
    load(&mut m, "plugins/a.so", "a", true);
    assert!(m.is_plugin_loaded("a") && m.is_plugin_active("a"));

    let plan = m.unload_plugin("a").unwrap();
    assert_eq!(plan.release, Some(1));
    assert!(!m.is_plugin_loaded("a"));
    assert!(!m.is_plugin_active("a"));
    assert_eq!(m.loaded_plugins().len(), 0);
    assert_eq!(m.active_plugins().len(), 0);
}

#[test]
fn unload_with_pinned_loader_keeps_the_plugin_resident_inactive() {
    let mut m = ready_manager();
    load(&mut m, "plugins/b.dll", "b", false);

    let plan = m.unload_plugin("b").unwrap();
    assert_eq!(plan.release, None);
    assert!(m.is_plugin_loaded("b"));
    assert!(!m.is_plugin_active("b"));
    assert_eq!(m.loaded_plugins().len(), 1);
    assert_eq!(m.active_plugins().len(), 0);
}

#[test]
fn failed_load_hook_rolls_back_exactly_once_and_registers_nothing() {
    let mut m = ready_manager();
    let r = m.try_load_plugin(
        "plugins/bad.so",
        LoadOutcome::HookFailed {
            instance: 42,
            loader: 7,
            loader_data: 99,
            error: "database unreachable".to_string(),
        },
    );
    match r {
        Ok(LoadReport::RolledBack { error, plan }) => {
            match error {
                LoaderError::InitializationFailed(msg) => {
                    assert_eq!(msg, "database unreachable")
                },
                _ => panic!("expected InitializationFailed"),
            }
            // The one rollback attempt the caller owes the plugin.
            assert_eq!(plan.instance, 42);
            assert_eq!(plan.loader, 7);
            assert_eq!(plan.loader_data, 99);
        },
        _ => panic!("expected RolledBack"),
    }
    assert_eq!(m.loaded_plugins().len(), 0);
    assert_eq!(m.active_plugins().len(), 0);
    assert!(!m.is_plugin_loaded("bad"));
}

#[test]
fn loader_failure_is_reported_and_changes_nothing() {
    let mut m = ready_manager();
    let r = m.try_load_plugin(
        "plugins/odd.so",
        LoadOutcome::LoadFailed(LoaderError::MissingEntryPoint("plugin_entry".to_string())),
    );
    match r {
        Ok(LoadReport::LoadFailed(LoaderError::MissingEntryPoint(sym))) => {
            assert_eq!(sym, "plugin_entry")
        },
        _ => panic!("expected LoadFailed"),
    }
    assert_eq!(m.loaded_plugins().len(), 0);
}

#[test]
fn unload_needs_server_and_self_reference() {
    let mut m = PluginManager::new();
    m.set_server(ServerRef { id: 1 });
    m.set_self_ref(ManagerRef { id: 1 });
    load(&mut m, "plugins/a.so", "a", true);

    let mut no_server = PluginManager::new();
    no_server.set_self_ref(ManagerRef { id: 1 });
    assert!(matches!(no_server.context_ready(), Err(ManagerError::ServerNotInitialized)));
    load(&mut no_server, "plugins/a.so", "a", true);
    assert!(matches!(no_server.unload_plugin("a"), Err(ManagerError::ServerNotInitialized)));
    assert!(no_server.is_plugin_active("a"));

    let mut no_self = PluginManager::new();
    no_self.set_server(ServerRef { id: 1 });
    assert!(matches!(no_self.context_ready(), Err(ManagerError::ManagerNotInitialized)));
    load(&mut no_self, "plugins/a.so", "a", true);
    assert!(matches!(no_self.unload_plugin("a"), Err(ManagerError::ManagerNotInitialized)));
    assert!(no_self.is_plugin_active("a"));
    assert!(m.context_ready().is_ok());
}

#[test]
fn unload_all_deactivates_everything() {
    let mut m = ready_manager();
    load(&mut m, "plugins/a.so", "a", true);
    load(&mut m, "plugins/b.dll", "b", false);
    load(&mut m, "plugins/c.so", "c", true);

    let plans = m.unload_all_plugins().unwrap();
    assert_eq!(plans.len(), 3);
    assert_eq!(m.active_plugins().len(), 0);
    // Only the plugin whose loader cannot release code stays resident.
    assert_eq!(m.loaded_plugins().len(), 1);
    assert_eq!(m.loaded_plugins()[0].name, "b");
}

#[test]
fn reloading_a_name_leaves_at_most_one_active_entry() {
    let mut m = ready_manager();
    load(&mut m, "plugins/a.so", "a", true);
    assert!(m.is_plugin_active("a"));

    // A second artifact carrying the same plugin name loads successfully:
    // the earlier entry loses its active flag, the new one is active.
    load(&mut m, "plugins/a_v2.so", "a", true);
    assert!(m.is_plugin_active("a"));
    assert_eq!(m.loaded_plugins().len(), 2);
    assert_eq!(m.active_plugins().len(), 1);
}

#[test]
fn first_accepting_loader_wins() {
    let mut m = PluginManager::new();
    m.add_loader(LoaderInfo { loader: 10, can_unload: true });
    m.add_loader(LoaderInfo { loader: 11, can_unload: false });
    m.add_loader(LoaderInfo { loader: 12, can_unload: true });
    assert_eq!(m.get_loaders().len(), 3);

    assert_eq!(m.select_loader(&vec![false, true, true]), Some(1));
    assert_eq!(m.select_loader(&vec![true, false, false]), Some(0));
    assert_eq!(m.select_loader(&vec![false, false, false]), None);
}
