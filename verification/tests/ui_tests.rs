use ddev_gui::commands::{
    config_args, config_result, container_infos, docker_ps_args, finish_lifecycle, ps_entries,
    ssh_command, ssh_next, stats_args, terminal_candidates, Lifecycle, SshStep,
};
use ddev_gui::ddev::{CommandOutcome, Project, ProjectStatus};
use ddev_gui::prefs::Prefs;
use ddev_gui::tray::{
    hide_on_close, is_active, menu_action, menu_model, refresh_projects, shell_folder,
    site_to_open, start_hidden, status_word, tooltip, MenuAction, MenuNode,
};

fn project(name: &str, status: ProjectStatus, url: &str) -> Project {
    Project {
        name: name.to_string(),
        status,
        status_desc: String::new(),
        kind: "php".to_string(),
        primary_url: url.to_string(),
        http_url: String::new(),
        https_url: String::new(),
        mailpit_url: String::new(),
        approot: format!("/srv/{}", name),
        shortroot: String::new(),
    }
}

fn ok_run(stdout: &str) -> CommandOutcome {
    CommandOutcome::Exited {
        success: true,
        status: "exit status: 0".to_string(),
        stdout: stdout.as_bytes().to_vec(),
        stderr: Vec::new(),
    }
}

fn failed_run(stderr: &str) -> CommandOutcome {
    CommandOutcome::Exited {
        success: false,
        status: "exit status: 1".to_string(),
        stdout: Vec::new(),
        stderr: stderr.as_bytes().to_vec(),
    }
}

#[test]
fn lifecycle_words() {
    assert_eq!(Lifecycle::Start.verb(), "start");
    assert_eq!(Lifecycle::Stop.verb(), "stop");
    assert_eq!(Lifecycle::Restart.verb(), "restart");
    assert_eq!(Lifecycle::Start.past(), "started");
    assert_eq!(Lifecycle::Stop.past(), "stopped");
    assert_eq!(Lifecycle::Restart.past(), "restarted");
}

#[test]
fn lifecycle_success_notifies() {
    let r = finish_lifecycle(true, "shop", Lifecycle::Start, &ok_run(""));
    let n = r.notice.expect("notice");
    assert_eq!(n.title, "DDEV");
    assert_eq!(n.body, "shop started");
    assert!(r.reply.is_ok());
}

#[test]
fn lifecycle_failure_notifies_with_error() {
    let r = finish_lifecycle(true, "shop", Lifecycle::Stop, &failed_run("no docker"));
    let n = r.notice.expect("notice");
    assert_eq!(n.title, "DDEV error");
    assert_eq!(n.body, "shop failed to stop: no docker");
    assert_eq!(r.reply.unwrap_err(), "no docker");
}

#[test]
fn notifications_off_means_no_notice() {
    let r = finish_lifecycle(false, "shop", Lifecycle::Restart, &failed_run("boom"));
    assert!(r.notice.is_none());
    assert_eq!(r.reply.unwrap_err(), "boom");
    let r = finish_lifecycle(false, "shop", Lifecycle::Restart, &ok_run(""));
    assert!(r.notice.is_none());
    assert!(r.reply.is_ok());
}

#[test]
fn ssh_tries_terminals_in_order() {
    let cmd = ssh_command("shop");
    assert_eq!(cmd, "ddev ssh shop; exec $SHELL");
    let cands = terminal_candidates(&cmd);
    let programs: Vec<&str> = cands.iter().map(|c| c.program.as_str()).collect();
    assert_eq!(
        programs,
        vec!["x-terminal-emulator", "gnome-terminal", "konsole", "xfce4-terminal", "xterm", "alacritty"]
    );
    assert_eq!(cands[1].args, vec!["--", "bash", "-c", "ddev ssh shop; exec $SHELL"]);
    assert_eq!(cands[4].args, vec!["-e", "bash", "-c", "ddev ssh shop; exec $SHELL"]);

    assert!(matches!(ssh_next(0, false), SshStep::Spawn(0)));
    assert!(matches!(ssh_next(3, false), SshStep::Spawn(3)));
    assert!(matches!(ssh_next(2, true), SshStep::Done));
    match ssh_next(6, false) {
        SshStep::Failed(m) => assert!(m.starts_with("No supported terminal emulator found")),
        other => panic!("unexpected step {:?}", other),
    }
}

#[test]
fn config_arguments_and_result() {
    let args = config_args("8.3", "mariadb:10.11", true, "20", "nginx-fpm");
    assert_eq!(
        args,
        vec![
            "config",
            "--php-version=8.3",
            "--database=mariadb:10.11",
            "--xdebug-enabled=true",
            "--nodejs-version=20",
            "--webserver-type=nginx-fpm",
        ]
    );
    assert!(config_args("8.1", "mysql:8.0", false, "18", "apache-fpm")[3] == "--xdebug-enabled=false");
    assert!(config_result(&ok_run("")).is_ok());
    assert_eq!(config_result(&failed_run("")).unwrap_err(), "Failed to update DDEV configuration");
    assert_eq!(config_result(&failed_run(" bad flag \n")).unwrap_err(), "bad flag");
    let unstarted = CommandOutcome::Unstarted { missing: true, message: "not found".to_string() };
    assert_eq!(config_result(&unstarted).unwrap_err(), "not found");
}

#[test]
fn docker_ps_rows_and_stats() {
    assert_eq!(
        docker_ps_args("shop"),
        vec!["ps", "--filter", "label=com.ddev.site-name=shop", "--format", "{{.ID}}\t{{.Names}}\t{{.Status}}\t{{.Image}}"]
    );
    let ps = ok_run("a1\tddev-shop-web\tUp 2 hours\tddev/web:1\r\nbad line\na2\tddev-shop-db\tUp 2 hours\tmariadb:10\textra\n");
    let entries = ps_entries(&ps).unwrap();
    assert_eq!(entries.len(), 2);
    assert_eq!(entries[0].image, "ddev/web:1");
    assert_eq!(entries[1].name, "ddev-shop-db");

    let args = stats_args(&entries).unwrap();
    assert_eq!(args, vec!["stats", "--no-stream", "--format", "json", "ddev-shop-web", "ddev-shop-db"]);
    assert!(stats_args(&Vec::new()).is_none());

    let stats = ok_run("{\"ID\":\"a1\",\"Name\":\"ddev-shop-web\",\"CPUPerc\":\"1.5%\",\"MemUsage\":\"10MiB / 1GiB\",\"MemPerc\":\"1%\",\"NetIO\":\"1kB / 2kB\",\"BlockIO\":\"0B / 0B\",\"PIDs\":\"12\"}\n   \nnot json\n{\"ID\":\"zz\",\"Name\":\"other\"}\n");
    let infos = container_infos(&entries, &stats).unwrap();
    assert_eq!(infos.len(), 2);
    assert_eq!(infos[0].status, "Up 2 hours");
    assert_eq!(infos[0].image, "ddev/web:1");
    assert_eq!(infos[0].cpu_perc, "1.5%");
    assert_eq!(infos[0].pids, "12");
    assert_eq!(infos[1].status, "unknown");
    assert_eq!(infos[1].image, "unknown");
    assert_eq!(infos[1].mem_usage, "0MiB / 0GiB");
    assert_eq!(infos[1].net_io, "0B / 0B");
}

#[test]
fn docker_ps_failure() {
    assert_eq!(ps_entries(&failed_run("")).unwrap_err(), "Failed to run docker ps");
    assert_eq!(ps_entries(&failed_run("daemon down\n")).unwrap_err(), "daemon down");
}

#[test]
fn container_matched_by_slash_name() {
    let entries = ps_entries(&ok_run("id\t/web\tUp\timg\n")).unwrap();
    let infos = container_infos(&entries, &ok_run("{\"Name\":\"web\"}\n")).unwrap();
    assert_eq!(infos[0].status, "Up");
    assert_eq!(infos[0].id, "");
}

#[test]
fn prefs_defaults_and_interval() {
    let p = Prefs::default();
    assert!(p.notifications);
    assert!(!p.autostart);
    assert_eq!(p.refresh_interval_secs, 4);
    assert_eq!(p.interval_secs(), 4);
    let q = Prefs { refresh_interval_secs: 0, ..p };
    assert_eq!(q.interval_secs(), 2);
    let q = Prefs { refresh_interval_secs: 3600, ..p };
    assert_eq!(q.interval_secs(), 60);
    let q = Prefs { refresh_interval_secs: 60, ..p };
    assert_eq!(q.interval_secs(), 60);
}

#[test]
fn status_words_and_activity() {
    assert_eq!(status_word(ProjectStatus::Running), "running");
    assert_eq!(status_word(ProjectStatus::Unknown), "unknown");
    assert_eq!(ProjectStatus::from_ddev(status_word(ProjectStatus::Starting)), ProjectStatus::Starting);
    assert!(is_active(ProjectStatus::Running));
    assert!(is_active(ProjectStatus::Paused));
    assert!(!is_active(ProjectStatus::Stopped));
    assert!(!is_active(ProjectStatus::Starting));
}

fn item_ids(n: &MenuNode) -> Vec<String> {
    match n {
        MenuNode::Submenu(_, items) => items.iter().map(|e| e.id.clone()).collect(),
        MenuNode::Item(e) => vec![e.id.clone()],
        MenuNode::Separator => vec![],
    }
}

#[test]
fn menu_for_projects() {
    let projects = vec![
        project("shop", ProjectStatus::Running, "https://shop.ddev.site"),
        project("blog", ProjectStatus::Paused, ""),
        project("wiki", ProjectStatus::Stopped, "https://wiki.ddev.site"),
    ];
    let menu = menu_model(&projects);
    assert_eq!(menu.len(), 8);
    match &menu[0] {
        MenuNode::Submenu(label, _) => assert_eq!(label, "shop \u{2014} running"),
        other => panic!("unexpected node {:?}", other),
    }
    assert_eq!(item_ids(&menu[0]), vec!["stop::shop", "open::shop", "ssh::shop"]);
    assert_eq!(item_ids(&menu[1]), vec!["stop::blog"]);
    assert_eq!(item_ids(&menu[2]), vec!["start::wiki"]);
    assert!(matches!(menu[3], MenuNode::Separator));
    assert_eq!(item_ids(&menu[4]), vec!["show"]);
    assert_eq!(item_ids(&menu[7]), vec!["quit"]);

    let empty = menu_model(&Vec::new());
    assert_eq!(empty.len(), 6);
    match &empty[0] {
        MenuNode::Item(e) => {
            assert_eq!(e.id, "noop");
            assert_eq!(e.label, "No DDEV projects");
            assert!(!e.enabled);
        }
        other => panic!("unexpected node {:?}", other),
    }
}

#[test]
fn menu_ids_read_back() {
    assert!(matches!(menu_action("quit"), MenuAction::Quit));
    assert!(matches!(menu_action("show"), MenuAction::Show));
    assert!(matches!(menu_action("noop"), MenuAction::Noop));
    assert!(matches!(menu_action("refresh"), MenuAction::Refresh));
    match menu_action("start::my::site") {
        MenuAction::Start(n) => assert_eq!(n, "my::site"),
        other => panic!("unexpected action {:?}", other),
    }
    match menu_action("stop::quit") {
        MenuAction::Stop(n) => assert_eq!(n, "quit"),
        other => panic!("unexpected action {:?}", other),
    }
    match menu_action("open::shop") {
        MenuAction::Open(n) => assert_eq!(n, "shop"),
        other => panic!("unexpected action {:?}", other),
    }
    match menu_action("ssh::") {
        MenuAction::Ssh(n) => assert_eq!(n, ""),
        other => panic!("unexpected action {:?}", other),
    }
    assert!(matches!(menu_action("start:shop"), MenuAction::Ignore));
    for n in menu_model(&vec![project("a b", ProjectStatus::Running, "u")]).iter() {
        for id in item_ids(n) {
            assert!(!matches!(menu_action(&id), MenuAction::Ignore));
        }
    }
}

#[test]
fn tooltip_counts_running() {
    let projects = vec![
        project("a", ProjectStatus::Running, ""),
        project("b", ProjectStatus::Paused, ""),
        project("c", ProjectStatus::Running, ""),
    ];
    assert_eq!(tooltip(&projects), "DDEV GUI \u{2014} 2/3 running");
    assert_eq!(tooltip(&Vec::new()), "DDEV GUI \u{2014} 0/0 running");
}

#[test]
fn refresh_falls_back_to_nothing() {
    assert!(refresh_projects(&failed_run("x")).is_empty());
    let ps = refresh_projects(&ok_run("{\"raw\":[{\"name\":\"q\",\"status\":\"running\"}]}"));
    assert_eq!(ps.len(), 1);
}

#[test]
fn lookups_by_name() {
    let projects = vec![
        project("shop", ProjectStatus::Running, "https://shop.ddev.site"),
        project("blog", ProjectStatus::Running, ""),
    ];
    assert_eq!(site_to_open(&projects, "shop").as_deref(), Some("https://shop.ddev.site"));
    assert!(site_to_open(&projects, "blog").is_none());
    assert!(site_to_open(&projects, "nope").is_none());
    assert_eq!(shell_folder(&projects, "blog").as_deref(), Some("/srv/blog"));
    assert!(shell_folder(&projects, "nope").is_none());
}

#[test]
fn window_behaviour() {
    let args = vec!["ddev-gui".to_string(), "--minimized".to_string()];
    assert!(start_hidden(&args, true));
    assert!(!start_hidden(&args, false));
    assert!(!start_hidden(&vec!["ddev-gui".to_string()], true));
    assert!(hide_on_close(true));
    assert!(!hide_on_close(false));
}
