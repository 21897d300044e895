//! The status-bar indicator: the contents of its menu and tooltip, what a
//! menu selection asks for, and the window behaviour tied to the tray.

use vstd::prelude::*;

use crate::ddev::{
    list_projects, list_words, listed, project_views, run_result, status_from, CommandOutcome,
    Project, ProjectStatus, ProjectView,
};
use crate::text::{
    ascii_lower, chars_of, decimal, decimal_string, is_ws, lower_char, str_views,
    string_from_chars, strip_prefix_chars, trim, trim_end, trim_start,
};

verus! {

/// The word shown for a status.
pub open spec fn status_text(s: ProjectStatus) -> Seq<char> {
    match s {
        ProjectStatus::Running => "running"@,
        ProjectStatus::Stopped => "stopped"@,
        ProjectStatus::Paused => "paused"@,
        ProjectStatus::Starting => "starting"@,
        ProjectStatus::Unknown => "unknown"@,
    }
}

/// Whether a project with this status has running containers to stop.
pub open spec fn active(s: ProjectStatus) -> bool {
    s == ProjectStatus::Running || s == ProjectStatus::Paused
}

/// The word shown for a status.
pub fn status_word(s: ProjectStatus) -> (r: &'static str)
    ensures
        r@ == status_text(s),
{
    match s {
        ProjectStatus::Running => "running",
        ProjectStatus::Stopped => "stopped",
        ProjectStatus::Paused => "paused",
        ProjectStatus::Starting => "starting",
        ProjectStatus::Unknown => "unknown",
    }
}

/// Whether a project with this status has running containers to stop.
pub fn is_active(s: ProjectStatus) -> (r: bool)
    ensures
        r == active(s),
{
    match s {
        ProjectStatus::Running | ProjectStatus::Paused => true,
        _ => false,
    }
}

// ---------- Menu ----------

/// A clickable menu entry: its id, its label, and whether it is enabled.
#[derive(Debug)]
pub struct MenuEntry {
    pub id: String,
    pub label: String,
    pub enabled: bool,
}

/// The texts of a menu entry: id, label, enabled.
pub type EntryView = (Seq<char>, Seq<char>, bool);

impl View for MenuEntry {
    type V = EntryView;

    open spec fn view(&self) -> EntryView {
        (self.id@, self.label@, self.enabled)
    }
}

/// One element of the tray menu.
#[derive(Debug)]
pub enum MenuNode {
    Item(MenuEntry),
    Submenu(String, Vec<MenuEntry>),
    Separator,
}

/// The mathematical form of a [`MenuNode`].
pub enum MenuNodeView {
    Item(EntryView),
    Submenu(Seq<char>, Seq<EntryView>),
    Separator,
}

/// The views of a list of entries.
pub open spec fn entry_views(es: Seq<MenuEntry>) -> Seq<EntryView> {
    es.map_values(|e: MenuEntry| e@)
}

impl View for MenuNode {
    type V = MenuNodeView;

    open spec fn view(&self) -> MenuNodeView {
        match self {
            MenuNode::Item(e) => MenuNodeView::Item(e@),
            MenuNode::Submenu(l, es) => MenuNodeView::Submenu(l@, entry_views(es@)),
            MenuNode::Separator => MenuNodeView::Separator,
        }
    }
}

/// The views of a list of menu nodes.
pub open spec fn node_views(ns: Seq<MenuNode>) -> Seq<MenuNodeView> {
    ns.map_values(|n: MenuNode| n@)
}

/// The id of the entry that starts or stops project `name`.
pub open spec fn toggle_id(is_active: bool, name: Seq<char>) -> Seq<char> {
    if is_active {
        "stop::"@ + name
    } else {
        "start::"@ + name
    }
}

/// The entries of a project's submenu: start or stop by its status, open
/// the site when it is active and has a URL, open a shell when it runs.
pub open spec fn project_entries(p: ProjectView) -> Seq<EntryView> {
    let a = active(p.status);
    let toggle = (toggle_id(a, p.name), if a {
        "Stop"@
    } else {
        "Start"@
    }, true);
    let open = if a && p.primary_url.len() > 0 {
        seq![("open::"@ + p.name, "Open site"@, true)]
    } else {
        Seq::empty()
    };
    let ssh = if p.status == ProjectStatus::Running {
        seq![("ssh::"@ + p.name, "SSH"@, true)]
    } else {
        Seq::empty()
    };
    seq![toggle] + open + ssh
}

/// A project's submenu, labelled with its name and status.
pub open spec fn project_node(p: ProjectView) -> MenuNodeView {
    MenuNodeView::Submenu(p.name + " \u{2014} "@ + status_text(p.status), project_entries(p))
}

/// The entries that follow the projects.
pub open spec fn tail_nodes() -> Seq<MenuNodeView> {
    seq![
        MenuNodeView::Separator,
        MenuNodeView::Item(("show"@, "Open dashboard"@, true)),
        MenuNodeView::Item(("refresh"@, "Refresh"@, true)),
        MenuNodeView::Separator,
        MenuNodeView::Item(("quit"@, "Quit"@, true)),
    ]
}

/// The tray menu for a project list: one submenu per project, or a
/// disabled placeholder when there is none, then the fixed entries.
pub open spec fn menu_for(ps: Seq<ProjectView>) -> Seq<MenuNodeView> {
    let head = if ps.len() == 0 {
        seq![MenuNodeView::Item(("noop"@, "No DDEV projects"@, false))]
    } else {
        ps.map_values(|p: ProjectView| project_node(p))
    };
    head + tail_nodes()
}

/// A menu entry from literals.
fn entry(id: String, label: &str, enabled: bool) -> (r: MenuEntry)
    ensures
        r@ == (id@, label@, enabled),
{
    MenuEntry { id, label: label.to_string(), enabled }
}

/// `prefix` followed by `value`.
fn joined(prefix: &str, value: &str) -> (r: String)
    ensures
        r@ == prefix@ + value@,
{
    let mut r = prefix.to_string();
    r.append(value);
    r
}

/// The submenu of one project.
fn project_submenu(p: &Project) -> (r: MenuNode)
    ensures
        r@ == project_node(p@),
{
    let a = is_active(p.status);
    let mut items: Vec<MenuEntry> = Vec::new();
    let ghost pv = p@;
    if a {
        items.push(entry(joined("stop::", p.name.as_str()), "Stop", true));
    } else {
        items.push(entry(joined("start::", p.name.as_str()), "Start", true));
    }
    let ghost first = entry_views(items@);
    if a && !p.primary_url.as_str().is_empty() {
        items.push(entry(joined("open::", p.name.as_str()), "Open site", true));
    }
    let ghost second = entry_views(items@);
    if p.status == ProjectStatus::Running {
        items.push(entry(joined("ssh::", p.name.as_str()), "SSH", true));
    }
    proof {
        let open = if a && pv.primary_url.len() > 0 {
            seq![("open::"@ + pv.name, "Open site"@, true)]
        } else {
            Seq::<EntryView>::empty()
        };
        let ssh = if pv.status == ProjectStatus::Running {
            seq![("ssh::"@ + pv.name, "SSH"@, true)]
        } else {
            Seq::<EntryView>::empty()
        };
        assert(second =~= first + open);
        assert(entry_views(items@) =~= second + ssh);
        assert(entry_views(items@) =~= project_entries(pv));
    }
    let mut label = p.name.clone();
    label.append(" \u{2014} ");
    label.append(status_word(p.status));
    MenuNode::Submenu(label, items)
}

/// The tray menu for the listed projects.
pub fn menu_model(projects: &Vec<Project>) -> (r: Vec<MenuNode>)
    ensures
        node_views(r@) == menu_for(project_views(projects@)),
{
    let ghost ps = project_views(projects@);
    let mut r: Vec<MenuNode> = Vec::new();
    if projects.len() == 0 {
        r.push(MenuNode::Item(entry("noop".to_string(), "No DDEV projects", false)));
        assert(node_views(r@) =~= seq![MenuNodeView::Item(("noop"@, "No DDEV projects"@, false))]);
    } else {
        let mut i: usize = 0;
        while i < projects.len()
            invariant
                i <= projects.len(),
                ps == project_views(projects@),
                node_views(r@) == ps.take(i as int).map_values(|p: ProjectView| project_node(p)),
            decreases projects.len() - i,
        {
            let n = project_submenu(&projects[i]);
            let ghost before = node_views(r@);
            r.push(n);
            proof {
                assert(ps[i as int] == projects@[i as int]@);
                assert(node_views(r@) =~= before.push(project_node(ps[i as int])));
                assert(ps.take(i + 1).map_values(|p: ProjectView| project_node(p)) =~= ps.take(
                    i as int,
                ).map_values(|p: ProjectView| project_node(p)).push(project_node(ps[i as int])));
            }
            i += 1;
        }
        proof {
            assert(ps.take(projects.len() as int) =~= ps);
        }
    }
    let ghost head = node_views(r@);
    r.push(MenuNode::Separator);
    r.push(MenuNode::Item(entry("show".to_string(), "Open dashboard", true)));
    r.push(MenuNode::Item(entry("refresh".to_string(), "Refresh", true)));
    r.push(MenuNode::Separator);
    r.push(MenuNode::Item(entry("quit".to_string(), "Quit", true)));
    assert(node_views(r@) =~= head + tail_nodes());
    r
}

// ---------- Tooltip ----------

/// How many of the projects are running.
pub open spec fn count_running(ps: Seq<ProjectView>) -> nat
    decreases ps.len(),
{
    if ps.len() == 0 {
        0
    } else {
        count_running(ps.drop_last()) + if ps.last().status == ProjectStatus::Running {
            1nat
        } else {
            0nat
        }
    }
}

/// The tooltip: how many of the projects run.
pub open spec fn tooltip_text(ps: Seq<ProjectView>) -> Seq<char> {
    "DDEV GUI \u{2014} "@ + decimal(count_running(ps)) + "/"@ + decimal(ps.len()) + " running"@
}

/// The running count never exceeds the number of projects.
pub proof fn lemma_count_running_bound(ps: Seq<ProjectView>)
    ensures
        count_running(ps) <= ps.len(),
    decreases ps.len(),
{
    if ps.len() > 0 {
        lemma_count_running_bound(ps.drop_last());
    }
}

/// The tooltip for the listed projects.
pub fn tooltip(projects: &Vec<Project>) -> (r: String)
    ensures
        r@ == tooltip_text(project_views(projects@)),
{
    let ghost ps = project_views(projects@);
    let mut running: usize = 0;
    let mut i: usize = 0;
    while i < projects.len()
        invariant
            i <= projects.len(),
            ps == project_views(projects@),
            running == count_running(ps.take(i as int)),
            running <= i,
        decreases projects.len() - i,
    {
        proof {
            assert(ps.take(i + 1).drop_last() =~= ps.take(i as int));
            assert(ps.take(i + 1).last() == projects@[i as int]@);
        }
        if projects[i].status == ProjectStatus::Running {
            running += 1;
        }
        i += 1;
    }
    proof {
        assert(ps.take(projects.len() as int) =~= ps);
    }
    let mut r = "DDEV GUI \u{2014} ".to_string();
    let a = decimal_string(running);
    r.append(a.as_str());
    r.append("/");
    let b = decimal_string(projects.len());
    r.append(b.as_str());
    r.append(" running");
    r
}

/// The projects shown by the indicator after a `ddev list -j` run: its
/// projects, or none when it failed.
pub open spec fn refreshed(o: CommandOutcome) -> Seq<ProjectView> {
    match listed(run_result(list_words(), o)) {
        Ok(ps) => ps,
        Err(_) => Seq::empty(),
    }
}

/// The projects to show after a `ddev list -j` run, none when it failed.
pub fn refresh_projects(outcome: &CommandOutcome) -> (r: Vec<Project>)
    ensures
        project_views(r@) == refreshed(*outcome),
{
    match list_projects(outcome) {
        Ok(ps) => ps,
        Err(_) => {
            let v: Vec<Project> = Vec::new();
            assert(project_views(v@) =~= Seq::<ProjectView>::empty());
            v
        },
    }
}

// ---------- Menu selections ----------

/// What a menu selection asks for.
#[derive(Debug)]
pub enum MenuAction {
    Quit,
    Show,
    Noop,
    Refresh,
    Start(String),
    Stop(String),
    Open(String),
    Ssh(String),
    Ignore,
}

/// The mathematical form of a [`MenuAction`].
pub enum ActionView {
    Quit,
    Show,
    Noop,
    Refresh,
    Start(Seq<char>),
    Stop(Seq<char>),
    Open(Seq<char>),
    Ssh(Seq<char>),
    Ignore,
}

impl View for MenuAction {
    type V = ActionView;

    open spec fn view(&self) -> ActionView {
        match self {
            MenuAction::Quit => ActionView::Quit,
            MenuAction::Show => ActionView::Show,
            MenuAction::Noop => ActionView::Noop,
            MenuAction::Refresh => ActionView::Refresh,
            MenuAction::Start(n) => ActionView::Start(n@),
            MenuAction::Stop(n) => ActionView::Stop(n@),
            MenuAction::Open(n) => ActionView::Open(n@),
            MenuAction::Ssh(n) => ActionView::Ssh(n@),
            MenuAction::Ignore => ActionView::Ignore,
        }
    }
}

/// Whether `s` begins with `p`.
pub open spec fn has_prefix(s: Seq<char>, p: Seq<char>) -> bool {
    p.len() <= s.len() && s.take(p.len() as int) == p
}

/// What the menu entry with id `id` asks for: the fixed ids by name, the
/// project entries by their prefix followed by the project's name.
pub open spec fn action_for(id: Seq<char>) -> ActionView {
    if id == "quit"@ {
        ActionView::Quit
    } else if id == "show"@ {
        ActionView::Show
    } else if id == "noop"@ {
        ActionView::Noop
    } else if id == "refresh"@ {
        ActionView::Refresh
    } else if has_prefix(id, "start::"@) {
        ActionView::Start(id.skip(7))
    } else if has_prefix(id, "stop::"@) {
        ActionView::Stop(id.skip(6))
    } else if has_prefix(id, "open::"@) {
        ActionView::Open(id.skip(6))
    } else if has_prefix(id, "ssh::"@) {
        ActionView::Ssh(id.skip(5))
    } else {
        ActionView::Ignore
    }
}

/// Reads the id of a selected menu entry.
pub fn menu_action(id: &str) -> (r: MenuAction)
    ensures
        r@ == action_for(id@),
{
    let s = id.to_string();
    if s == "quit".to_string() {
        return MenuAction::Quit;
    }
    if s == "show".to_string() {
        return MenuAction::Show;
    }
    if s == "noop".to_string() {
        return MenuAction::Noop;
    }
    if s == "refresh".to_string() {
        return MenuAction::Refresh;
    }
    let cs = chars_of(id);
    let start = chars_of("start::");
    let stop = chars_of("stop::");
    let open = chars_of("open::");
    let ssh = chars_of("ssh::");
    proof {
        reveal_strlit("start::");
        reveal_strlit("stop::");
        reveal_strlit("open::");
        reveal_strlit("ssh::");
    }
    if let Some(rest) = strip_prefix_chars(&cs, &start) {
        return MenuAction::Start(string_from_chars(rest.as_slice()));
    }
    if let Some(rest) = strip_prefix_chars(&cs, &stop) {
        return MenuAction::Stop(string_from_chars(rest.as_slice()));
    }
    if let Some(rest) = strip_prefix_chars(&cs, &open) {
        return MenuAction::Open(string_from_chars(rest.as_slice()));
    }
    if let Some(rest) = strip_prefix_chars(&cs, &ssh) {
        return MenuAction::Ssh(string_from_chars(rest.as_slice()));
    }
    MenuAction::Ignore
}

// ---------- Looking projects up ----------

/// The first project named `name`.
pub open spec fn find_named(ps: Seq<ProjectView>, name: Seq<char>) -> Option<ProjectView>
    decreases ps.len(),
{
    if ps.len() == 0 {
        None
    } else if ps[0].name == name {
        Some(ps[0])
    } else {
        find_named(ps.drop_first(), name)
    }
}

/// The index of the first project named `name`.
fn find_project(projects: &Vec<Project>, name: &str) -> (r: Option<usize>)
    ensures
        r is None ==> find_named(project_views(projects@), name@) is None,
        r matches Some(i) ==> i < projects.len() && find_named(project_views(projects@), name@)
            == Some(projects@[i as int]@),
{
    let key = name.to_string();
    let ghost ps = project_views(projects@);
    let mut i: usize = 0;
    proof {
        assert(ps.skip(0) =~= ps);
    }
    while i < projects.len()
        invariant
            i <= projects.len(),
            ps == project_views(projects@),
            key@ == name@,
            find_named(ps, name@) == find_named(ps.skip(i as int), name@),
        decreases projects.len() - i,
    {
        proof {
            assert(ps.skip(i as int)[0] == projects@[i as int]@);
            assert(ps.skip(i as int).drop_first() =~= ps.skip(i + 1));
        }
        if projects[i].name == key {
            return Some(i);
        }
        i += 1;
    }
    proof {
        assert(ps.skip(i as int).len() == 0);
    }
    None
}

/// The site URL to open for project `name`: its primary URL, or nothing
/// when the project is unknown or has none.
pub open spec fn site_target(ps: Seq<ProjectView>, name: Seq<char>) -> Option<Seq<char>> {
    match find_named(ps, name) {
        Some(p) => if p.primary_url.len() > 0 {
            Some(p.primary_url)
        } else {
            None
        },
        None => None,
    }
}

/// The folder to open a shell in for project `name`: its project root, or
/// nothing when the project is unknown or has none.
pub open spec fn shell_target(ps: Seq<ProjectView>, name: Seq<char>) -> Option<Seq<char>> {
    match find_named(ps, name) {
        Some(p) => if p.approot.len() > 0 {
            Some(p.approot)
        } else {
            None
        },
        None => None,
    }
}

/// An optional text taken by its view.
pub open spec fn opt_text(o: Option<String>) -> Option<Seq<char>> {
    match o {
        Some(s) => Some(s@),
        None => None,
    }
}

/// The site URL to open for project `name`, if any.
pub fn site_to_open(projects: &Vec<Project>, name: &str) -> (r: Option<String>)
    ensures
        opt_text(r) == site_target(project_views(projects@), name@),
{
    match find_project(projects, name) {
        Some(i) => if !projects[i].primary_url.as_str().is_empty() {
            Some(projects[i].primary_url.clone())
        } else {
            None
        },
        None => None,
    }
}

/// The folder to open a shell in for project `name`, if any.
pub fn shell_folder(projects: &Vec<Project>, name: &str) -> (r: Option<String>)
    ensures
        opt_text(r) == shell_target(project_views(projects@), name@),
{
    match find_project(projects, name) {
        Some(i) => if !projects[i].approot.as_str().is_empty() {
            Some(projects[i].approot.clone())
        } else {
            None
        },
        None => None,
    }
}

// ---------- Window behaviour ----------

/// Whether the app starts with its window hidden: when launched with
/// `--minimized` and the tray exists to bring it back.
pub fn start_hidden(args: &Vec<String>, tray_available: bool) -> (r: bool)
    ensures
        r == (tray_available && str_views(args@).contains("--minimized"@)),
{
    let flag = "--minimized".to_string();
    let mut i: usize = 0;
    while i < args.len()
        invariant
            i <= args.len(),
            flag@ == "--minimized"@,
            forall|k: int| 0 <= k < i ==> (#[trigger] args@[k])@ != "--minimized"@,
        decreases args.len() - i,
    {
        if args[i] == flag {
            proof {
                assert(str_views(args@)[i as int] == "--minimized"@);
            }
            return tray_available;
        }
        i += 1;
    }
    proof {
        if str_views(args@).contains("--minimized"@) {
            let k = choose|k: int| 0 <= k < args.len() && str_views(args@)[k] == "--minimized"@;
            assert(args@[k]@ == "--minimized"@);
        }
    }
    false
}

/// Whether closing the window only hides it: when the tray keeps the app
/// reachable.
pub fn hide_on_close(tray_available: bool) -> (r: bool)
    ensures
        r == tray_available,
{
    tray_available
}

// ---------- Laws ----------

/// A word of lower-case ASCII letters reads as itself once trimmed and
/// lower-cased.
proof fn lemma_plain_word(w: Seq<char>)
    requires
        w.len() > 0,
        forall|i: int| 0 <= i < w.len() ==> 0x61 <= (#[trigger] w[i] as u32) <= 0x7a,
    ensures
        ascii_lower(trim(w)) == w,
{
    assert(trim_start(w) == w);
    assert(trim_end(w) == w);
    assert(ascii_lower(w) =~= w);
}

/// The status word of every status reads back as that status.
pub proof fn lemma_status_round_trip(st: ProjectStatus)
    ensures
        status_from(status_text(st)) == st,
{
    reveal_strlit("running");
    reveal_strlit("stopped");
    reveal_strlit("paused");
    reveal_strlit("starting");
    reveal_strlit("unknown");
    let w = status_text(st);
    lemma_plain_word(w);
    assert("stopped"@[0] != "running"@[0]);
    assert("paused"@.len() != "running"@.len());
    assert("paused"@.len() != "stopped"@.len());
    assert("starting"@.len() != "running"@.len());
    assert("starting"@.len() != "stopped"@.len());
    assert("starting"@.len() != "paused"@.len());
    assert("unknown"@[0] != "running"@[0]);
    assert("unknown"@[0] != "stopped"@[0]);
    assert("unknown"@.len() != "paused"@.len());
    assert("unknown"@.len() != "starting"@.len());
}

/// The first character of `trim_start(s)` is not whitespace.
proof fn lemma_trim_start_head(s: Seq<char>)
    ensures
        trim_start(s).len() == 0 || !is_ws(trim_start(s)[0]),
    decreases s.len(),
{
    if s.len() > 0 && is_ws(s[0]) {
        lemma_trim_start_head(s.drop_first());
    }
}

/// `trim_end(s)` is a prefix of `s` whose last character is not whitespace.
proof fn lemma_trim_end_prefix(s: Seq<char>)
    ensures
        trim_end(s).len() <= s.len(),
        trim_end(s) == s.take(trim_end(s).len() as int),
        trim_end(s).len() == 0 || !is_ws(trim_end(s).last()),
    decreases s.len(),
{
    if s.len() > 0 && is_ws(s.last()) {
        lemma_trim_end_prefix(s.drop_last());
        assert(s.drop_last().take(trim_end(s).len() as int) =~= s.take(
            trim_end(s).len() as int,
        ));
    } else {
        assert(s.take(s.len() as int) =~= s);
    }
}

/// Trimmed text neither begins nor ends with whitespace.
proof fn lemma_trim_ends(s: Seq<char>)
    ensures
        trim(s).len() == 0 || (!is_ws(trim(s)[0]) && !is_ws(trim(s).last())),
{
    lemma_trim_start_head(s);
    lemma_trim_end_prefix(trim_start(s));
    let x = trim_start(s);
    let t = trim(s);
    if t.len() > 0 {
        assert(t[0] == x.take(t.len() as int)[0]);
    }
}

/// Status text that is already trimmed and lower-cased reads as the status
/// of the text it came from: normalization ignores surrounding whitespace
/// and ASCII case.
pub proof fn lemma_status_normalized(s: Seq<char>)
    ensures
        status_from(s) == status_from(ascii_lower(trim(s))),
{
    let t = trim(s);
    let n = ascii_lower(t);
    lemma_trim_ends(s);
    if n.len() > 0 {
        assert(n[0] == lower_char(t[0]));
        assert(n.last() == lower_char(t.last()));
        assert(trim_start(n) == n);
        assert(trim_end(n) == n);
    } else {
        assert(trim_start(n) == n);
        assert(trim_end(n) == n);
    }
    assert(ascii_lower(n) =~= n);
}

/// Every id that the menu gives a project's entry reads back as the action
/// on that project that its label names, and the fixed ids read as their
/// own actions.
pub proof fn lemma_menu_ids_round_trip(p: ProjectView)
    ensures
        action_for(toggle_id(active(p.status), p.name)) == (if active(p.status) {
            ActionView::Stop(p.name)
        } else {
            ActionView::Start(p.name)
        }),
        action_for("open::"@ + p.name) == ActionView::Open(p.name),
        action_for("ssh::"@ + p.name) == ActionView::Ssh(p.name),
        action_for("quit"@) == ActionView::Quit,
        action_for("show"@) == ActionView::Show,
        action_for("refresh"@) == ActionView::Refresh,
        action_for("noop"@) == ActionView::Noop,
{
    reveal_strlit("start::");
    reveal_strlit("stop::");
    reveal_strlit("open::");
    reveal_strlit("ssh::");
    reveal_strlit("quit");
    reveal_strlit("show");
    reveal_strlit("noop");
    reveal_strlit("refresh");
    let n = p.name;
    let start = "start::"@ + n;
    let stop = "stop::"@ + n;
    let open = "open::"@ + n;
    let ssh = "ssh::"@ + n;
    // start::
    assert(start.len() != "quit"@.len() && start.len() != "show"@.len() && start.len()
        != "noop"@.len());
    assert(start[1] != "refresh"@[1]);
    assert(start.take(7) =~= "start::"@);
    assert(start.skip(7) =~= n);
    // stop::
    assert(stop.len() != "quit"@.len() && stop.len() != "show"@.len() && stop.len()
        != "noop"@.len());
    assert(stop[0] != "refresh"@[0]);
    assert(stop.len() >= 7 ==> stop.take(7)[2] != "start::"@[2]);
    assert(stop.take(6) =~= "stop::"@);
    assert(stop.skip(6) =~= n);
    // open::
    assert(open.len() != "quit"@.len() && open.len() != "show"@.len() && open.len()
        != "noop"@.len());
    assert(open[0] != "refresh"@[0]);
    assert(open.len() >= 7 ==> open.take(7)[0] != "start::"@[0]);
    assert(open.take(6)[0] != "stop::"@[0]);
    assert(open.take(6) =~= "open::"@);
    assert(open.skip(6) =~= n);
    // ssh::
    assert(ssh[0] != "quit"@[0] && ssh[0] != "noop"@[0] && ssh[1] != "show"@[1]);
    assert(ssh[0] != "refresh"@[0]);
    assert(ssh.len() >= 7 ==> ssh.take(7)[1] != "start::"@[1]);
    assert(ssh.len() >= 6 ==> ssh.take(6)[1] != "stop::"@[1]);
    assert(ssh.len() >= 6 ==> ssh.take(6)[0] != "open::"@[0]);
    assert(ssh.take(5) =~= "ssh::"@);
    assert(ssh.skip(5) =~= n);
    // the fixed ids
    assert("show"@ != "quit"@ && "noop"@ != "quit"@ && "noop"@ != "show"@);
    assert("refresh"@.len() != "quit"@.len());
    assert("show"@[0] != "quit"@[0]);
    assert("noop"@[0] != "quit"@[0] && "noop"@[0] != "show"@[0]);
    assert("refresh"@.len() != "show"@.len() && "refresh"@.len() != "noop"@.len());
    if active(p.status) {
        assert(toggle_id(true, n) == stop);
    } else {
        assert(toggle_id(false, n) == start);
    }
}

/// A project that is neither running nor paused offers only "Start": no
/// site or shell entry, whatever its URL.
pub proof fn lemma_inactive_project_entries(p: ProjectView)
    requires
        !active(p.status),
    ensures
        project_entries(p) == seq![(toggle_id(false, p.name), "Start"@, true)],
{
    assert(project_entries(p) =~= seq![(toggle_id(false, p.name), "Start"@, true)]);
}

/// In the menu, every project has a submenu of its own, in list order, and
/// its entries follow its status: a running or paused project with a site
/// URL offers "Open site" on `open::<name>`, only a running project offers
/// "SSH" on `ssh::<name>`, a running or paused project offers "Stop" on
/// `stop::<name>`, and any other project "Start" on `start::<name>`.
pub proof fn lemma_menu_entries_follow_status(ps: Seq<ProjectView>, i: int)
    requires
        0 <= i < ps.len(),
    ensures
        menu_for(ps)[i] matches MenuNodeView::Submenu(label, es) && {
            let p = ps[i];
            let running_or_paused = p.status == ProjectStatus::Running || p.status
                == ProjectStatus::Paused;
            &&& label == p.name + " \u{2014} "@ + status_text(p.status)
            &&& (running_or_paused && p.primary_url.len() > 0 <==> es.contains(
                ("open::"@ + p.name, "Open site"@, true),
            ))
            &&& (p.status == ProjectStatus::Running <==> es.contains(
                ("ssh::"@ + p.name, "SSH"@, true),
            ))
            &&& running_or_paused ==> es[0] == ("stop::"@ + p.name, "Stop"@, true)
            &&& !running_or_paused ==> es[0] == ("start::"@ + p.name, "Start"@, true)
        },
{
    reveal_strlit("open::");
    reveal_strlit("ssh::");
    reveal_strlit("stop::");
    reveal_strlit("start::");
    reveal_strlit("Open site");
    reveal_strlit("SSH");
    reveal_strlit("Stop");
    reveal_strlit("Start");
    let p = ps[i];
    let es = project_entries(p);
    assert(menu_for(ps)[i] == project_node(p));
    let open = ("open::"@ + p.name, "Open site"@, true);
    let ssh = ("ssh::"@ + p.name, "SSH"@, true);
    let a = active(p.status);
    if a && p.primary_url.len() > 0 {
        assert(es[1] == open);
    }
    if p.status == ProjectStatus::Running {
        assert(es[es.len() - 1] == ssh);
    }
    if es.contains(open) {
        let k = choose|k: int| 0 <= k < es.len() && es[k] == open;
        assert(("open::"@ + p.name)[0] == 'o');
        assert(("ssh::"@ + p.name)[0] == 's');
        assert(("stop::"@ + p.name)[0] == 's');
        assert(("start::"@ + p.name)[0] == 's');
        assert(es[k].0[0] == 'o');
    }
    if es.contains(ssh) {
        let k = choose|k: int| 0 <= k < es.len() && es[k] == ssh;
        assert(("open::"@ + p.name)[1] == 'p');
        assert(("ssh::"@ + p.name)[1] == 's');
        assert(("stop::"@ + p.name)[1] == 't');
        assert(("start::"@ + p.name)[1] == 't');
        assert(es[k].0[1] == 's');
    }
}

/// The tooltip counts exactly the projects whose status is Running, out of
/// all listed projects.
pub proof fn lemma_tooltip_counts_running(ps: Seq<ProjectView>)
    ensures
        tooltip_text(ps) == "DDEV GUI \u{2014} "@ + decimal(
            ps.filter(|p: ProjectView| p.status == ProjectStatus::Running).len(),
        ) + "/"@ + decimal(ps.len()) + " running"@,
{
    lemma_count_is_filter(ps);
}

/// `count_running` is the length of the list of running projects.
proof fn lemma_count_is_filter(ps: Seq<ProjectView>)
    ensures
        count_running(ps) == ps.filter(|p: ProjectView| p.status == ProjectStatus::Running).len(),
    decreases ps.len(),
{
    reveal(Seq::filter);
    if ps.len() > 0 {
        lemma_count_is_filter(ps.drop_last());
    }
}

/// `find_named` finds the first project of that name.
proof fn lemma_find_first(ps: Seq<ProjectView>, name: Seq<char>, i: int)
    requires
        0 <= i < ps.len(),
        ps[i].name == name,
        forall|j: int| 0 <= j < i ==> (#[trigger] ps[j]).name != name,
    ensures
        find_named(ps, name) == Some(ps[i]),
    decreases i,
{
    if i > 0 {
        assert forall|j: int| 0 <= j < i - 1 implies (#[trigger] ps.drop_first()[j]).name
            != name by {
            assert(ps.drop_first()[j] == ps[j + 1]);
        }
        lemma_find_first(ps.drop_first(), name, i - 1);
    }
}

/// `find_named` finds nothing when no project has that name.
proof fn lemma_find_none(ps: Seq<ProjectView>, name: Seq<char>)
    requires
        forall|j: int| 0 <= j < ps.len() ==> (#[trigger] ps[j]).name != name,
    ensures
        find_named(ps, name) is None,
    decreases ps.len(),
{
    if ps.len() > 0 {
        assert forall|j: int| 0 <= j < ps.len() - 1 implies (#[trigger] ps.drop_first()[j]).name
            != name by {
            assert(ps.drop_first()[j] == ps[j + 1]);
        }
        lemma_find_none(ps.drop_first(), name);
    }
}

/// The folder a shell opens in is the project root (`approot`) of the first
/// project with that name, when it has one; there is none for a name that
/// no project has.
pub proof fn lemma_shell_folder_is_approot(ps: Seq<ProjectView>, name: Seq<char>, i: int)
    requires
        0 <= i < ps.len(),
        ps[i].name == name,
        forall|j: int| 0 <= j < i ==> (#[trigger] ps[j]).name != name,
    ensures
        ps[i].approot.len() > 0 ==> shell_target(ps, name) == Some(ps[i].approot),
        ps[i].approot.len() == 0 ==> shell_target(ps, name) is None,
{
    lemma_find_first(ps, name, i);
}

/// The site opened for a project is the primary URL of the first project
/// with that name, when it has one.
pub proof fn lemma_site_is_primary_url(ps: Seq<ProjectView>, name: Seq<char>, i: int)
    requires
        0 <= i < ps.len(),
        ps[i].name == name,
        forall|j: int| 0 <= j < i ==> (#[trigger] ps[j]).name != name,
    ensures
        ps[i].primary_url.len() > 0 ==> site_target(ps, name) == Some(ps[i].primary_url),
        ps[i].primary_url.len() == 0 ==> site_target(ps, name) is None,
{
    lemma_find_first(ps, name, i);
}

/// For a name that no project has, there is neither a site nor a folder.
pub proof fn lemma_unknown_name(ps: Seq<ProjectView>, name: Seq<char>)
    requires
        forall|j: int| 0 <= j < ps.len() ==> (#[trigger] ps[j]).name != name,
    ensures
        shell_target(ps, name) is None,
        site_target(ps, name) is None,
{
    lemma_find_none(ps, name);
}

/// The menu holds one submenu per project (or, with no project, the disabled
/// entry "No DDEV projects" on `noop`), followed by a separator, "Open
/// dashboard" on `show`, "Refresh" on `refresh`, a separator and "Quit" on
/// `quit`.
pub proof fn lemma_menu_shape(ps: Seq<ProjectView>)
    ensures
        ({
            let m = menu_for(ps);
            let n = if ps.len() == 0 {
                1
            } else {
                ps.len() as int
            };
            &&& m.len() == n + 5
            &&& ps.len() == 0 ==> m[0] == MenuNodeView::Item(
                ("noop"@, "No DDEV projects"@, false),
            )
            &&& m[n] == MenuNodeView::Separator
            &&& m[n + 1] == MenuNodeView::Item(("show"@, "Open dashboard"@, true))
            &&& m[n + 2] == MenuNodeView::Item(("refresh"@, "Refresh"@, true))
            &&& m[n + 3] == MenuNodeView::Separator
            &&& m[n + 4] == MenuNodeView::Item(("quit"@, "Quit"@, true))
        }),
{
}

} // verus!
