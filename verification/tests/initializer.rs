use typsite::initializer::{initialize, InitError, Input, MonitorReport, ProjectConfig};

fn strings(items: &[&str]) -> Vec<String> {
    items.iter().map(|s| s.to_string()).collect()
}

fn quiet() -> MonitorReport {
    MonitorReport {
        all_typst_paths: strings(&["root/a.typ", "root/b.typ", "root/posts/c.typ"]),
        changed_typst_paths: Vec::new(),
        deleted_typst_paths: Vec::new(),
        changed_config_paths: Vec::new(),
        deleted_config_paths: Vec::new(),
        changed_non_typst: Vec::new(),
        deleted_non_typst: Vec::new(),
        retry_html_paths: Vec::new(),
    }
}

fn config(libs: &[&str]) -> ProjectConfig {
    ProjectConfig {
        typst_path: "root".to_string(),
        assets_path: ".typsite/assets".to_string(),
        lib_paths: strings(libs),
    }
}

#[test]
fn missing_cache_forces_a_full_build_even_without_changes() {
    let input = initialize(quiet(), Some(&config(&[])), false).unwrap();
    assert!(input.overall_compile_needed);
    assert_eq!(input.changed_typst_paths, strings(&["root/a.typ", "root/b.typ", "root/posts/c.typ"]));
    assert!(input.deleted_typst_paths.is_empty());
    assert!(!input.options_changed && !input.components_changed && !input.libs_changed);
}

#[test]
fn nothing_changed_means_nothing_to_compile() {
    let input = initialize(quiet(), Some(&config(&[])), true).unwrap();
    assert!(!input.overall_compile_needed);
    assert!(input.changed_typst_paths.is_empty());
    assert!(input.unchanged(false));
    assert!(input.unchanged(true));
}

#[test]
fn incremental_build_compiles_what_changed() {
    let mut monitor = quiet();
    monitor.changed_typst_paths = strings(&["root/b.typ"]);
    monitor.deleted_typst_paths = strings(&["root/old.typ"]);
    monitor.changed_non_typst = strings(&["root/img.png"]);
    monitor.deleted_non_typst = strings(&["root/gone.png"]);
    monitor.retry_html_paths = strings(&["out/x.html"]);
    let input = initialize(monitor, Some(&config(&["lib/util.typ"])), true).unwrap();
    assert_eq!(
        input,
        Input {
            changed_typst_paths: strings(&["root/b.typ"]),
            deleted_typst_paths: strings(&["root/old.typ"]),
            changed_config_paths: Vec::new(),
            deleted_config_paths: Vec::new(),
            changed_non_typst: strings(&["root/img.png"]),
            deleted_non_typst: strings(&["root/gone.png"]),
            changed_assets: Vec::new(),
            deleted_assets: Vec::new(),
            retry_html_paths: strings(&["out/x.html"]),
            overall_compile_needed: false,
            options_changed: false,
            components_changed: false,
            libs_changed: false,
        }
    );
}

#[test]
fn changed_library_file_forces_a_full_build_and_is_not_compiled_itself() {
    let mut monitor = quiet();
    monitor.all_typst_paths =
        strings(&["root/a.typ", "root/lib/util.typ", "root/b.typ", "root/lib/old.typ"]);
    monitor.changed_typst_paths = strings(&["root/lib/util.typ"]);
    monitor.deleted_typst_paths = strings(&["root/lib/old.typ", "root/gone.typ"]);
    let input =
        initialize(monitor, Some(&config(&["lib/util.typ", "lib/old.typ"])), true).unwrap();
    assert!(input.libs_changed);
    assert!(input.overall_compile_needed);
    assert_eq!(input.changed_typst_paths, strings(&["root/a.typ", "root/b.typ"]));
    assert_eq!(input.deleted_typst_paths, strings(&["root/gone.typ"]));
}

#[test]
fn deleted_library_file_forces_a_full_build() {
    let mut monitor = quiet();
    monitor.deleted_typst_paths = strings(&["root/lib/util.typ"]);
    let input = initialize(monitor, Some(&config(&["lib/util.typ"])), true).unwrap();
    assert!(input.libs_changed);
    assert!(input.overall_compile_needed);
    assert_eq!(input.changed_typst_paths, strings(&["root/a.typ", "root/b.typ", "root/posts/c.typ"]));
    assert!(input.deleted_typst_paths.is_empty());
}

#[test]
fn library_paths_are_read_relative_to_the_document_root() {
    let mut monitor = quiet();
    monitor.changed_typst_paths = strings(&["elsewhere/lib/util.typ", "lib/util.typ"]);
    let input = initialize(monitor, Some(&config(&["lib/util.typ"])), true).unwrap();
    assert!(!input.libs_changed);
    assert!(!input.overall_compile_needed);
    assert_eq!(input.changed_typst_paths, strings(&["elsewhere/lib/util.typ", "lib/util.typ"]));
}

#[test]
fn changed_options_file_forces_a_full_build() {
    let mut monitor = quiet();
    monitor.changed_config_paths = strings(&[".typsite/themes/a.css", ".typsite/options.toml"]);
    let input = initialize(monitor, Some(&config(&[])), true).unwrap();
    assert!(input.options_changed);
    assert!(!input.components_changed);
    assert!(input.overall_compile_needed);
    assert_eq!(input.changed_typst_paths, strings(&["root/a.typ", "root/b.typ", "root/posts/c.typ"]));
    assert_eq!(
        input.changed_config_paths,
        strings(&[".typsite/themes/a.css", ".typsite/options.toml"])
    );
}

#[test]
fn changed_component_forces_a_full_build() {
    for path in [".typsite/components/footer.html", ".typsite\\components\\footer.html"] {
        let mut monitor = quiet();
        monitor.changed_config_paths = strings(&[path]);
        let input = initialize(monitor, Some(&config(&[])), true).unwrap();
        assert!(input.components_changed);
        assert!(!input.options_changed);
        assert!(input.overall_compile_needed);
    }
}

#[test]
fn deleted_configuration_alone_forces_nothing() {
    let mut monitor = quiet();
    monitor.deleted_config_paths = strings(&[".typsite/options.toml", ".typsite/components/x.html"]);
    let input = initialize(monitor, Some(&config(&[])), true).unwrap();
    assert!(!input.overall_compile_needed);
    assert!(!input.unchanged(true));
}

#[test]
fn assets_are_configuration_paths_under_the_assets_root_that_are_no_output() {
    let mut monitor = quiet();
    monitor.changed_config_paths = strings(&[
        ".typsite/assets/site.css",
        ".typsite/assets/page.html",
        ".typsite/themes/t.css",
        ".typsite/assets/fonts/f.woff",
        ".typsite/assetsx/y.css",
        ".typsite/assets/README",
    ]);
    monitor.deleted_config_paths =
        strings(&[".typsite/assets/old.js", ".typsite/assets/old.html", "other/old.js"]);
    let input = initialize(monitor, Some(&config(&[])), true).unwrap();
    assert_eq!(
        input.changed_assets,
        strings(&[
            ".typsite/assets/site.css",
            ".typsite/assets/fonts/f.woff",
            ".typsite/assets/README"
        ])
    );
    assert_eq!(input.deleted_assets, strings(&[".typsite/assets/old.js"]));
    assert!(!input.overall_compile_needed);
}

#[test]
fn without_configuration_there_is_no_decision() {
    assert_eq!(initialize(quiet(), None, true), Err(InitError::ConfigUnavailable));
    assert_eq!(initialize(quiet(), None, false), Err(InitError::ConfigUnavailable));
}

#[test]
fn pending_retries_count_as_a_change_except_in_watch_mode() {
    let mut monitor = quiet();
    monitor.retry_html_paths = strings(&["out/a.html"]);
    let input = initialize(monitor, Some(&config(&[])), true).unwrap();
    assert!(!input.unchanged(false));
    assert!(input.unchanged(true));
}

#[test]
fn any_changed_category_makes_the_input_changed() {
    let base = initialize(quiet(), Some(&config(&[])), true).unwrap();
    let one = strings(&["x"]);
    let mut input = base.clone();
    input.changed_typst_paths = one.clone();
    assert!(!input.unchanged(true));
    let mut input = base.clone();
    input.deleted_typst_paths = one.clone();
    assert!(!input.unchanged(true));
    let mut input = base.clone();
    input.changed_config_paths = one.clone();
    assert!(!input.unchanged(true));
    let mut input = base.clone();
    input.deleted_config_paths = one.clone();
    assert!(!input.unchanged(true));
    let mut input = base.clone();
    input.changed_non_typst = one.clone();
    assert!(!input.unchanged(true));
    let mut input = base.clone();
    input.deleted_non_typst = one.clone();
    assert!(!input.unchanged(true));
    let mut input = base.clone();
    input.changed_assets = one.clone();
    input.deleted_assets = one;
    assert!(input.unchanged(false));
}

#[test]
fn guidance_names_the_configuration_and_the_way_out() {
    assert_eq!(
        InitError::ConfigUnavailable.guidance(".typsite"),
        "Loading '.typsite' failed, try to init Typsite first by: typsite init"
    );
}
