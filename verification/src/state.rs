//! User configuration: display preferences, sorting, features.

use vstd::prelude::*;
use crate::text::{owned, views};

verus! {

/// Display and feature settings read from the configuration file.
#[derive(Debug, Clone)]
pub struct Config {
    pub icons: bool,
    pub colors: bool,
    pub compact: bool,
    pub verbose: bool,
    pub max_display_items: usize,
    /// "rwx", "octal", "disable"
    pub permission: String,
    /// "default", "short", "bytes"
    pub size: String,
    /// "date", "relative"
    pub date: String,
    /// append */=>@|
    pub classify: bool,
    pub no_symlink: bool,
    pub total_size: bool,
    pub columns: Vec<String>,
    pub hide_columns: Vec<String>,
    pub sort: String,
    pub reverse: bool,
    /// "none", "first", "last"
    pub group_dirs: String,
    pub hyperlink: bool,
    pub hidden: bool,
    /// background highlight for recent files (e.g., "236", "22", "green", "bold")
    pub highlight_recent: String,
    /// background highlight for old files (e.g., "", "none")
    pub highlight_old: String,
    pub git_status: bool,
    pub build_status: bool,
    pub todo_count: bool,
    pub languages: bool,
    pub ports: bool,
    pub docker: bool,
    pub inline_preview: bool,
    pub mini_tree: bool,
    pub smart_truncation: bool,
    pub numbered: bool,
    pub zebra_rows: bool,
    pub open_command: String,
    pub ignore_dirs: Vec<String>,
}

fn strings(xs: &[&str]) -> (r: Vec<String>)
    ensures
        r@.len() == xs@.len(),
        forall|i: int| 0 <= i < xs@.len() ==> r@[i]@ == xs@[i]@,
{
    let mut r: Vec<String> = Vec::new();
    let mut i: usize = 0;
    while i < xs.len()
        invariant
            i <= xs@.len(),
            r@.len() == i,
            forall|k: int| 0 <= k < i ==> r@[k]@ == xs@[k]@,
        decreases xs@.len() - i,
    {
        r.push(owned(xs[i]));
        i = i + 1;
    }
    r
}

impl Default for Config {
    /// Icons and colors on, everything compact or hidden off, sort by name with
    /// directories last, smart truncation on (it only acts once
    /// `max_display_items` is set), build checks opt-in.
    fn default() -> (r: Config)
        ensures
            r.icons,
            r.colors,
            !r.compact,
            !r.verbose,
            r.max_display_items == 0,
            r.permission@ == "rwx"@,
            r.size@ == "default"@,
            r.date@ == "date"@,
            !r.classify,
            !r.no_symlink,
            r.total_size,
        views(r.columns@) == seq!["permission"@, "owner"@, "group"@, "size"@, "contents"@, "date"@, "name"@],
            r.hide_columns@.len() == 0,
            r.sort@ == "name"@,
            !r.reverse,
            r.group_dirs@ == "last"@,
            !r.hyperlink,
            !r.hidden,
            r.highlight_recent@ == "bold"@,
            r.highlight_old@ == ""@,
            r.git_status,
            !r.build_status,
            r.todo_count,
            r.languages,
            r.ports,
            r.docker,
            !r.inline_preview,
            !r.mini_tree,
            r.smart_truncation,
            !r.numbered,
            !r.zebra_rows,
            r.open_command@ == "micro"@,
        views(r.ignore_dirs@) == seq!["node_modules"@, "target"@, ".git"@, "dist"@, "build"@, ".pi"@, ".opencode"@, ".pi-glla"@, ".dracon"@, ".svelte-kit"@, ".cache"@],
    {
        let cols = ["permission", "owner", "group", "size", "contents", "date", "name"];
        let ign = ["node_modules", "target", ".git", "dist", "build", ".pi", ".opencode", ".pi-glla", ".dracon", ".svelte-kit", ".cache"];
        let r = Config {
            icons: true,
            colors: true,
            compact: false,
            verbose: false,
            max_display_items: 0,
            permission: owned("rwx"),
            size: owned("default"),
            date: owned("date"),
            classify: false,
            no_symlink: false,
            total_size: true,
            columns: strings(&cols),
            hide_columns: Vec::new(),
            sort: owned("name"),
            reverse: false,
            group_dirs: owned("last"),
            hyperlink: false,
            hidden: false,
            highlight_recent: owned("bold"),
            highlight_old: owned(""),
            git_status: true,
            build_status: false,
            todo_count: true,
            languages: true,
            ports: true,
            docker: true,
            inline_preview: false,
            mini_tree: false,
            smart_truncation: true,
            numbered: false,
            zebra_rows: false,
            open_command: owned("micro"),
            ignore_dirs: strings(&ign),
        };
        assert(views(r.columns@) =~= seq!["permission"@, "owner"@, "group"@, "size"@, "contents"@, "date"@, "name"@]);
        assert(views(r.ignore_dirs@) =~= seq!["node_modules"@, "target"@, ".git"@, "dist"@, "build"@, ".pi"@, ".opencode"@, ".pi-glla"@, ".dracon"@, ".svelte-kit"@, ".cache"@]);
        r
    }
}

} // verus!
