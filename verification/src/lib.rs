//! The search, ranking and bookkeeping logic of a Windows window switcher:
//! windows, browser tabs, installed apps and favorite folders matched against
//! a typed query, together with the helpers of its overlay, tray, startup
//! entry, update check and browser-extension bridge.
use vstd::prelude::*;

pub mod apps;
pub mod bridge;
pub mod entries;
pub mod folders;
pub mod geometry;
pub mod icons;
pub mod launcher;
pub mod laws;
pub mod monitors;
pub mod overlay;
pub mod search;
pub mod sort;
pub mod startup;
pub mod text;
pub mod tray;
pub mod updates;
pub mod winpath;

pub use entries::{
    ActivationTarget, AppEntry, AppSource, BuildResultOptions, DesktopLocation, ExtensionCommand,
    ExtensionTabPayload, ExtensionTabSnapshot, FavoriteFolderEntry, SearchResult,
    SearchResultKind, TabEntry, TabSource, WindowEntry,
};
pub use launcher::{
    build_app_results, build_folder_results, build_launcher_results, dedupe_apps,
    dedupe_favorite_folders,
};
pub use search::{
    build_results, build_results_with_options, display_browser_name, display_folder_path,
    extension_payload_to_tab, match_score, merge_tabs, prune_stale_tabs,
};
pub use text::normalize_for_match;

verus! {

} // verus!
