//! The change-set initializer: from what the file monitor found and from the
//! project's configuration it decides what has to be compiled in this run,
//! and whether an incremental build is enough.

use vstd::prelude::*;
use vstd::string::*;
use crate::paths::{extension, file_ext, is_under, lies_under, relative_to, strip_root};
use crate::text::{
    contains, ends_with, lemma_filter_next, list_contains, occurs_in, same_text, texts,
};

verus! {

/// What the file monitor reports for one run: the document paths it knows,
/// and per category the paths that changed or went away since the last run.
#[derive(Debug, Clone, PartialEq, Eq)]
pub struct MonitorReport {
    pub all_typst_paths: Vec<String>,
    pub changed_typst_paths: Vec<String>,
    pub deleted_typst_paths: Vec<String>,
    pub changed_config_paths: Vec<String>,
    pub deleted_config_paths: Vec<String>,
    pub changed_non_typst: Vec<String>,
    pub deleted_non_typst: Vec<String>,
    pub retry_html_paths: Vec<String>,
}

pub struct MonitorReportView {
    pub all_typst_paths: Seq<Seq<char>>,
    pub changed_typst_paths: Seq<Seq<char>>,
    pub deleted_typst_paths: Seq<Seq<char>>,
    pub changed_config_paths: Seq<Seq<char>>,
    pub deleted_config_paths: Seq<Seq<char>>,
    pub changed_non_typst: Seq<Seq<char>>,
    pub deleted_non_typst: Seq<Seq<char>>,
    pub retry_html_paths: Seq<Seq<char>>,
}

impl View for MonitorReport {
    type V = MonitorReportView;

    open spec fn view(&self) -> MonitorReportView {
        MonitorReportView {
            all_typst_paths: texts(self.all_typst_paths@),
            changed_typst_paths: texts(self.changed_typst_paths@),
            deleted_typst_paths: texts(self.deleted_typst_paths@),
            changed_config_paths: texts(self.changed_config_paths@),
            deleted_config_paths: texts(self.deleted_config_paths@),
            changed_non_typst: texts(self.changed_non_typst@),
            deleted_non_typst: texts(self.deleted_non_typst@),
            retry_html_paths: texts(self.retry_html_paths@),
        }
    }
}

/// The part of the project's configuration that the decision reads: the
/// document root, the assets root, and the library paths, each of them
/// written relative to the document root.
#[derive(Debug, Clone, PartialEq, Eq)]
pub struct ProjectConfig {
    pub typst_path: String,
    pub assets_path: String,
    pub lib_paths: Vec<String>,
}

pub struct ProjectConfigView {
    pub typst_path: Seq<char>,
    pub assets_path: Seq<char>,
    pub lib_paths: Seq<Seq<char>>,
}

impl View for ProjectConfig {
    type V = ProjectConfigView;

    open spec fn view(&self) -> ProjectConfigView {
        ProjectConfigView {
            typst_path: self.typst_path@,
            assets_path: self.assets_path@,
            lib_paths: texts(self.lib_paths@),
        }
    }
}

/// The decision for one run: what changed and what went away, per category,
/// with the library paths taken out of the documents; the outputs to try
/// again; whether everything has to be compiled, and for which reasons.
#[derive(Debug, Clone, PartialEq, Eq)]
pub struct Input {
    pub changed_typst_paths: Vec<String>,
    pub deleted_typst_paths: Vec<String>,
    pub changed_config_paths: Vec<String>,
    pub deleted_config_paths: Vec<String>,
    pub changed_non_typst: Vec<String>,
    pub deleted_non_typst: Vec<String>,
    pub changed_assets: Vec<String>,
    pub deleted_assets: Vec<String>,
    pub retry_html_paths: Vec<String>,
    pub overall_compile_needed: bool,
    pub options_changed: bool,
    pub components_changed: bool,
    pub libs_changed: bool,
}

pub struct InputView {
    pub changed_typst_paths: Seq<Seq<char>>,
    pub deleted_typst_paths: Seq<Seq<char>>,
    pub changed_config_paths: Seq<Seq<char>>,
    pub deleted_config_paths: Seq<Seq<char>>,
    pub changed_non_typst: Seq<Seq<char>>,
    pub deleted_non_typst: Seq<Seq<char>>,
    pub changed_assets: Seq<Seq<char>>,
    pub deleted_assets: Seq<Seq<char>>,
    pub retry_html_paths: Seq<Seq<char>>,
    pub overall_compile_needed: bool,
    pub options_changed: bool,
    pub components_changed: bool,
    pub libs_changed: bool,
}

impl View for Input {
    type V = InputView;

    open spec fn view(&self) -> InputView {
        InputView {
            changed_typst_paths: texts(self.changed_typst_paths@),
            deleted_typst_paths: texts(self.deleted_typst_paths@),
            changed_config_paths: texts(self.changed_config_paths@),
            deleted_config_paths: texts(self.deleted_config_paths@),
            changed_non_typst: texts(self.changed_non_typst@),
            deleted_non_typst: texts(self.deleted_non_typst@),
            changed_assets: texts(self.changed_assets@),
            deleted_assets: texts(self.deleted_assets@),
            retry_html_paths: texts(self.retry_html_paths@),
            overall_compile_needed: self.overall_compile_needed,
            options_changed: self.options_changed,
            components_changed: self.components_changed,
            libs_changed: self.libs_changed,
        }
    }
}

/// Why no decision could be made.
#[derive(Debug, Clone, Copy, PartialEq, Eq)]
pub enum InitError {
    /// The project's configuration could not be loaded.
    ConfigUnavailable,
}

/// What is said to the user where the configuration at `config_path` could
/// not be loaded.
pub open spec fn guidance_text(config_path: Seq<char>) -> Seq<char> {
    "Loading '"@ + config_path + "' failed, try to init Typsite first by: typsite init"@
}

impl InitError {
    /// The message for the user, with the way out of the error.
    pub fn guidance(&self, config_path: &str) -> (r: String)
        ensures
            r@ == guidance_text(config_path@),
    {
        match self {
            InitError::ConfigUnavailable => {
                let mut r = String::from_str("Loading '");
                r.append(config_path);
                r.append("' failed, try to init Typsite first by: typsite init");
                r
            },
        }
    }
}

/// The path is, or names, the project's options file.
pub open spec fn names_options_file(p: Seq<char>) -> bool {
    "options.toml"@.is_suffix_of(p)
}

/// The path lies under a components directory, with either separator.
pub open spec fn under_components(p: Seq<char>) -> bool {
    occurs_in(p, "components/"@) || occurs_in(p, "components\\"@)
}

/// The path, seen from the document root, is one of the library paths.
pub open spec fn is_library_path(p: Seq<char>, config: ProjectConfigView) -> bool {
    match relative_to(p, config.typst_path) {
        Some(rel) => config.lib_paths.contains(rel),
        None => false,
    }
}

/// The paths that are no library paths.
pub open spec fn not_library(config: ProjectConfigView) -> spec_fn(Seq<char>) -> bool {
    |p: Seq<char>| !is_library_path(p, config)
}

/// The path lies under the assets root and is no rendered output.
pub open spec fn is_asset(p: Seq<char>, config: ProjectConfigView) -> bool {
    is_under(p, config.assets_path) && extension(p) != Some("html"@)
}

/// The paths that are assets.
pub open spec fn asset(config: ProjectConfigView) -> spec_fn(Seq<char>) -> bool {
    |p: Seq<char>| is_asset(p, config)
}

/// Some changed configuration path names the options file.
pub open spec fn options_changed(monitor: MonitorReportView) -> bool {
    exists|i: int|
        0 <= i < monitor.changed_config_paths.len() && names_options_file(
            #[trigger] monitor.changed_config_paths[i],
        )
}

/// Some changed configuration path lies under a components directory.
pub open spec fn components_changed(monitor: MonitorReportView) -> bool {
    exists|i: int|
        0 <= i < monitor.changed_config_paths.len() && under_components(
            #[trigger] monitor.changed_config_paths[i],
        )
}

/// Some path of `paths` is a library path.
pub open spec fn holds_library_path(paths: Seq<Seq<char>>, config: ProjectConfigView) -> bool {
    exists|i: int| 0 <= i < paths.len() && is_library_path(#[trigger] paths[i], config)
}

/// Some changed or deleted document is a library file.
pub open spec fn libs_changed(monitor: MonitorReportView, config: ProjectConfigView) -> bool {
    holds_library_path(monitor.changed_typst_paths, config) || holds_library_path(
        monitor.deleted_typst_paths,
        config,
    )
}

/// Everything has to be compiled: there is no cache to build on, or the
/// options, the components or a library file changed.
pub open spec fn overall_compile_needed(
    monitor: MonitorReportView,
    config: ProjectConfigView,
    cache_exists: bool,
) -> bool {
    !cache_exists || options_changed(monitor) || components_changed(monitor) || libs_changed(
        monitor,
        config,
    )
}

/// The decision that `initialize` makes.
pub open spec fn decision(
    monitor: MonitorReportView,
    config: ProjectConfigView,
    cache_exists: bool,
) -> InputView {
    let overall = overall_compile_needed(monitor, config, cache_exists);
    let to_compile = if overall {
        monitor.all_typst_paths
    } else {
        monitor.changed_typst_paths
    };
    InputView {
        changed_typst_paths: to_compile.filter(not_library(config)),
        deleted_typst_paths: monitor.deleted_typst_paths.filter(not_library(config)),
        changed_config_paths: monitor.changed_config_paths,
        deleted_config_paths: monitor.deleted_config_paths,
        changed_non_typst: monitor.changed_non_typst,
        deleted_non_typst: monitor.deleted_non_typst,
        changed_assets: monitor.changed_config_paths.filter(asset(config)),
        deleted_assets: monitor.deleted_config_paths.filter(asset(config)),
        retry_html_paths: monitor.retry_html_paths,
        overall_compile_needed: overall,
        options_changed: options_changed(monitor),
        components_changed: components_changed(monitor),
        libs_changed: libs_changed(monitor, config),
    }
}

/// Whether `path`, seen from the document root, is one of the library paths.
pub fn library_path(path: &str, config: &ProjectConfig) -> (r: bool)
    ensures
        r == is_library_path(path@, config@),
{
    match strip_root(path, config.typst_path.as_str()) {
        Some(rel) => list_contains(&config.lib_paths, rel.as_str()),
        None => false,
    }
}

/// Whether `path` lies under the assets root and is no rendered output.
pub fn asset_path(path: &str, config: &ProjectConfig) -> (r: bool)
    ensures
        r == is_asset(path@, config@),
{
    if !lies_under(path, config.assets_path.as_str()) {
        return false;
    }
    match file_ext(path) {
        Some(ext) => !same_text(ext.as_str(), "html"),
        None => true,
    }
}

/// Whether some path of `paths` is a library path.
fn any_library_path(paths: &Vec<String>, config: &ProjectConfig) -> (r: bool)
    ensures
        r == holds_library_path(texts(paths@), config@),
{
    let mut i: usize = 0;
    while i < paths.len()
        invariant
            i <= paths.len(),
            forall|j: int| 0 <= j < i ==> !is_library_path(#[trigger] texts(paths@)[j], config@),
        decreases paths.len() - i,
    {
        if library_path(paths[i].as_str(), config) {
            assert(is_library_path(texts(paths@)[i as int], config@));
            return true;
        }
        i += 1;
    }
    false
}

/// The paths of `paths` that are no library paths, in their order.
fn without_library_paths(paths: &Vec<String>, config: &ProjectConfig) -> (r: Vec<String>)
    ensures
        texts(r@) == texts(paths@).filter(not_library(config@)),
{
    let mut r: Vec<String> = Vec::new();
    let mut i: usize = 0;
    proof {
        reveal(Seq::filter);
        assert(texts(paths@).take(0).filter(not_library(config@)) =~= texts(r@));
    }
    while i < paths.len()
        invariant
            i <= paths.len(),
            texts(r@) == texts(paths@).take(i as int).filter(not_library(config@)),
        decreases paths.len() - i,
    {
        proof {
            lemma_filter_next(texts(paths@), i as int, not_library(config@));
        }
        if !library_path(paths[i].as_str(), config) {
            let ghost before = texts(r@);
            r.push(paths[i].clone());
            assert(texts(r@) =~= before.push(texts(paths@)[i as int]));
        }
        i += 1;
    }
    assert(texts(paths@).take(paths@.len() as int) =~= texts(paths@));
    r
}

/// The paths of `paths` that are assets, in their order.
fn assets_among(paths: &Vec<String>, config: &ProjectConfig) -> (r: Vec<String>)
    ensures
        texts(r@) == texts(paths@).filter(asset(config@)),
{
    let mut r: Vec<String> = Vec::new();
    let mut i: usize = 0;
    proof {
        reveal(Seq::filter);
        assert(texts(paths@).take(0).filter(asset(config@)) =~= texts(r@));
    }
    while i < paths.len()
        invariant
            i <= paths.len(),
            texts(r@) == texts(paths@).take(i as int).filter(asset(config@)),
        decreases paths.len() - i,
    {
        proof {
            lemma_filter_next(texts(paths@), i as int, asset(config@));
        }
        if asset_path(paths[i].as_str(), config) {
            let ghost before = texts(r@);
            r.push(paths[i].clone());
            assert(texts(r@) =~= before.push(texts(paths@)[i as int]));
        }
        i += 1;
    }
    assert(texts(paths@).take(paths@.len() as int) =~= texts(paths@));
    r
}

/// Decides what this run has to compile.
///
/// Without a configuration there is no decision. With one, everything is
/// compiled where the cache is missing or the options, the components or a
/// library file changed, and only what changed otherwise; library paths are
/// never among the documents of the result, and the assets are the
/// configuration paths under the assets root that are no rendered output.
pub fn initialize(monitor: MonitorReport, config: Option<&ProjectConfig>, cache_exists: bool) -> (r:
    Result<Input, InitError>)
    ensures
        config is None <==> r is Err,
        r is Err ==> r == Err::<Input, InitError>(InitError::ConfigUnavailable),
        match (r, config) {
            (Ok(input), Some(config)) => input@ == decision(monitor@, config@, cache_exists),
            _ => true,
        },
{
    let config = match config {
        Some(config) => config,
        None => {
            return Err(InitError::ConfigUnavailable);
        },
    };
    let mut options_changed = false;
    let mut components_changed = false;
    let mut i: usize = 0;
    while i < monitor.changed_config_paths.len() && !(options_changed && components_changed)
        invariant
            i <= monitor.changed_config_paths.len(),
            options_changed == (exists|j: int|
                0 <= j < i && names_options_file(#[trigger] monitor@.changed_config_paths[j])),
            components_changed == (exists|j: int|
                0 <= j < i && under_components(#[trigger] monitor@.changed_config_paths[j])),
        decreases monitor.changed_config_paths.len() - i,
    {
        let path = monitor.changed_config_paths[i].as_str();
        assert(monitor@.changed_config_paths[i as int] == path@);
        if ends_with(path, "options.toml") {
            options_changed = true;
        }
        if contains(path, "components/") || contains(path, "components\\") {
            components_changed = true;
        }
        i += 1;
    }
    let libs_changed = any_library_path(&monitor.changed_typst_paths, config) || any_library_path(
        &monitor.deleted_typst_paths,
        config,
    );
    let overall_compile_needed = !cache_exists || options_changed || components_changed
        || libs_changed;
    let changed_typst_paths = if overall_compile_needed {
        without_library_paths(&monitor.all_typst_paths, config)
    } else {
        without_library_paths(&monitor.changed_typst_paths, config)
    };
    let deleted_typst_paths = without_library_paths(&monitor.deleted_typst_paths, config);
    let changed_assets = assets_among(&monitor.changed_config_paths, config);
    let deleted_assets = assets_among(&monitor.deleted_config_paths, config);
    Ok(
        Input {
            changed_typst_paths,
            deleted_typst_paths,
            changed_config_paths: monitor.changed_config_paths,
            deleted_config_paths: monitor.deleted_config_paths,
            changed_non_typst: monitor.changed_non_typst,
            deleted_non_typst: monitor.deleted_non_typst,
            changed_assets,
            deleted_assets,
            retry_html_paths: monitor.retry_html_paths,
            overall_compile_needed,
            options_changed,
            components_changed,
            libs_changed,
        },
    )
}

impl Input {
    /// Nothing changed and nothing went away, in any category. Outputs that
    /// wait to be tried again count as a change, except in watch mode, where
    /// the next cycle tries them anyway.
    pub open spec fn spec_unchanged(self, watch: bool) -> bool {
        &&& self@.changed_typst_paths.len() == 0
        &&& self@.deleted_typst_paths.len() == 0
        &&& self@.changed_config_paths.len() == 0
        &&& self@.deleted_config_paths.len() == 0
        &&& self@.changed_non_typst.len() == 0
        &&& self@.deleted_non_typst.len() == 0
        &&& (watch || self@.retry_html_paths.len() == 0)
    }

    /// Whether this run has nothing to do.
    pub fn unchanged(&self, watch: bool) -> (r: bool)
        ensures
            r == self.spec_unchanged(watch),
    {
        self.changed_typst_paths.len() == 0 && self.deleted_typst_paths.len() == 0
            && self.changed_config_paths.len() == 0 && self.deleted_config_paths.len() == 0
            && self.changed_non_typst.len() == 0 && self.deleted_non_typst.len() == 0 && (watch
            || self.retry_html_paths.len() == 0)
    }
}

} // verus!
