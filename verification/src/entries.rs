//! The records that the switcher lists and searches: top-level windows,
//! browser tabs, installed apps, favorite folders, and the results built from
//! them.
use vstd::prelude::*;

verus! {

/// Which virtual desktop a window is on, as far as Windows reports it.
#[derive(Clone, Copy, Debug, PartialEq, Eq, Structural)]
pub enum DesktopLocation {
    Current,
    Other,
    Unknown,
}

/// A top-level window that can be switched to.
#[derive(Debug, PartialEq, Eq)]
pub struct WindowEntry {
    pub hwnd: isize,
    pub title: String,
    pub app_name: String,
    pub class_name: String,
    pub screen_number: Option<u32>,
    pub desktop_location: DesktopLocation,
    pub minimized: bool,
    pub has_thumbnail: bool,
}

/// Where a tab title came from.
#[derive(Clone, Copy, Debug, PartialEq, Eq, Structural)]
pub enum TabSource {
    Accessibility,
    Extension,
}

/// A browser tab. `last_seen` is a reading of the app's monotonic clock in
/// milliseconds.
#[derive(Debug, PartialEq, Eq)]
pub struct TabEntry {
    pub browser: String,
    pub parent_hwnd: Option<isize>,
    pub window_title: Option<String>,
    pub title: String,
    pub active: bool,
    pub extension_window_id: Option<i64>,
    pub extension_tab_id: Option<i64>,
    pub source: TabSource,
    pub last_seen: u64,
}

/// Where an installed app was found; earlier variants are preferred when two
/// entries name the same app.
#[derive(Clone, Copy, Debug, PartialEq, Eq, Structural)]
pub enum AppSource {
    UserStartMenu,
    UserAppPath,
    AllUsersStartMenu,
    MachineAppPath,
    PackagedApp,
}

/// An installed app that launcher mode can start.
#[derive(Debug, PartialEq, Eq)]
pub struct AppEntry {
    pub name: String,
    pub launch_path: String,
    pub launch_identity: Option<String>,
    pub source: AppSource,
}

/// A folder pinned for launcher mode.
#[derive(Debug, PartialEq, Eq)]
pub struct FavoriteFolderEntry {
    pub name: String,
    pub path: String,
    pub normalized_path: String,
}

/// One tab as the browser extension reports it.
#[derive(Debug, PartialEq, Eq)]
pub struct ExtensionTabPayload {
    pub browser: String,
    pub window_id: i64,
    pub tab_id: i64,
    pub title: String,
    pub active: bool,
}

/// A report of all tabs of one browser from the extension.
#[derive(Debug, PartialEq, Eq)]
pub struct ExtensionTabSnapshot {
    pub browser: String,
    pub tabs: Vec<ExtensionTabPayload>,
}

/// A request for the extension, collected by its next poll.
#[derive(Debug, PartialEq, Eq)]
pub enum ExtensionCommand {
    ActivateTab { browser: String, window_id: i64, tab_id: i64 },
}

/// The kind of thing a search result stands for.
#[derive(Clone, Copy, Debug, PartialEq, Eq, Structural)]
pub enum SearchResultKind {
    Window,
    Tab,
    App,
    Folder,
}

/// What activating a result acts on.
#[derive(Debug, PartialEq, Eq)]
pub enum ActivationTarget {
    Window { hwnd: isize },
    Tab {
        parent_hwnd: Option<isize>,
        browser: String,
        title: String,
        extension_window_id: Option<i64>,
        extension_tab_id: Option<i64>,
    },
    App { launch_path: String },
    Folder { path: String },
}

/// One row of the overlay.
#[derive(Debug, PartialEq, Eq)]
pub struct SearchResult {
    pub kind: SearchResultKind,
    pub title: String,
    pub subtitle: String,
    pub screen_number: Option<u32>,
    pub rank: i32,
    pub target: ActivationTarget,
}

/// Options for building window and tab results.
#[derive(Clone, Copy, Debug, PartialEq, Eq, Structural)]
pub struct BuildResultOptions {
    pub show_desktop_labels: bool,
}

impl Default for BuildResultOptions {
    fn default() -> (r: Self)
        ensures
            !r.show_desktop_labels,
    {
        BuildResultOptions { show_desktop_labels: false }
    }
}

pub fn clone_opt_string(s: &Option<String>) -> (r: Option<String>)
    ensures
        r == *s,
{
    match s {
        Some(v) => Some(v.clone()),
        None => None,
    }
}

impl Clone for WindowEntry {
    fn clone(&self) -> (r: Self)
        ensures
            r == *self,
    {
        WindowEntry {
            hwnd: self.hwnd,
            title: self.title.clone(),
            app_name: self.app_name.clone(),
            class_name: self.class_name.clone(),
            screen_number: self.screen_number,
            desktop_location: self.desktop_location,
            minimized: self.minimized,
            has_thumbnail: self.has_thumbnail,
        }
    }
}

impl Clone for TabEntry {
    fn clone(&self) -> (r: Self)
        ensures
            r == *self,
    {
        TabEntry {
            browser: self.browser.clone(),
            parent_hwnd: self.parent_hwnd,
            window_title: clone_opt_string(&self.window_title),
            title: self.title.clone(),
            active: self.active,
            extension_window_id: self.extension_window_id,
            extension_tab_id: self.extension_tab_id,
            source: self.source,
            last_seen: self.last_seen,
        }
    }
}

impl Clone for AppEntry {
    fn clone(&self) -> (r: Self)
        ensures
            r == *self,
    {
        AppEntry {
            name: self.name.clone(),
            launch_path: self.launch_path.clone(),
            launch_identity: clone_opt_string(&self.launch_identity),
            source: self.source,
        }
    }
}

impl Clone for FavoriteFolderEntry {
    fn clone(&self) -> (r: Self)
        ensures
            r == *self,
    {
        FavoriteFolderEntry {
            name: self.name.clone(),
            path: self.path.clone(),
            normalized_path: self.normalized_path.clone(),
        }
    }
}

impl Clone for ExtensionTabPayload {
    fn clone(&self) -> (r: Self)
        ensures
            r == *self,
    {
        ExtensionTabPayload {
            browser: self.browser.clone(),
            window_id: self.window_id,
            tab_id: self.tab_id,
            title: self.title.clone(),
            active: self.active,
        }
    }
}

impl Clone for ExtensionCommand {
    fn clone(&self) -> (r: Self)
        ensures
            r == *self,
    {
        match self {
            ExtensionCommand::ActivateTab { browser, window_id, tab_id } => {
                ExtensionCommand::ActivateTab {
                    browser: browser.clone(),
                    window_id: *window_id,
                    tab_id: *tab_id,
                }
            },
        }
    }
}

impl Clone for ActivationTarget {
    fn clone(&self) -> (r: Self)
        ensures
            r == *self,
    {
        match self {
            ActivationTarget::Window { hwnd } => ActivationTarget::Window { hwnd: *hwnd },
            ActivationTarget::Tab {
                parent_hwnd,
                browser,
                title,
                extension_window_id,
                extension_tab_id,
            } => ActivationTarget::Tab {
                parent_hwnd: *parent_hwnd,
                browser: browser.clone(),
                title: title.clone(),
                extension_window_id: *extension_window_id,
                extension_tab_id: *extension_tab_id,
            },
            ActivationTarget::App { launch_path } => ActivationTarget::App {
                launch_path: launch_path.clone(),
            },
            ActivationTarget::Folder { path } => ActivationTarget::Folder { path: path.clone() },
        }
    }
}

impl Clone for SearchResult {
    fn clone(&self) -> (r: Self)
        ensures
            r == *self,
    {
        SearchResult {
            kind: self.kind,
            title: self.title.clone(),
            subtitle: self.subtitle.clone(),
            screen_number: self.screen_number,
            rank: self.rank,
            target: self.target.clone(),
        }
    }
}

impl Clone for ExtensionTabSnapshot {
    fn clone(&self) -> (r: Self)
        ensures
            r.browser == self.browser,
            r.tabs@ == self.tabs@,
    {
        let mut tabs: Vec<ExtensionTabPayload> = Vec::new();
        let mut i: usize = 0;
        while i < self.tabs.len()
            invariant
                i <= self.tabs@.len(),
                tabs@ == self.tabs@.take(i as int),
            decreases self.tabs.len() - i,
        {
            tabs.push(self.tabs[i].clone());
            assert(tabs@ =~= self.tabs@.take(i + 1));
            i = i + 1;
        }
        assert(self.tabs@.take(self.tabs@.len() as int) =~= self.tabs@);
        ExtensionTabSnapshot { browser: self.browser.clone(), tabs }
    }
}

} // verus!
