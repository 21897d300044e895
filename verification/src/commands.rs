//! What the dashboard's commands decide: lifecycle notifications and
//! replies, the terminal used to open a shell in a project, the arguments
//! of `ddev config`, and the container list read from `docker`.

use vstd::prelude::*;

use crate::ddev::{
    done, fault_message, lifecycle_words, restart_project, run_result, start_project,
    stop_project, CommandOutcome, DdevError, DdevFault,
};
use crate::json::{json_get, json_parse, json_str, parse_json, Json};
use crate::text::{
    chars_of, lines_of, lossy_string, split_char, split_on, str_views, string_from_chars,
    text_lines, trim, trim_chars, utf8_lossy, views,
};

verus! {

// ---------- Lifecycle ----------

/// A project lifecycle operation.
#[derive(Debug, Clone, Copy, PartialEq, Eq, Structural)]
pub enum Lifecycle {
    Start,
    Stop,
    Restart,
}

/// The `ddev` subcommand of an operation.
pub open spec fn verb_of(a: Lifecycle) -> Seq<char> {
    match a {
        Lifecycle::Start => "start"@,
        Lifecycle::Stop => "stop"@,
        Lifecycle::Restart => "restart"@,
    }
}

/// The past participle of an operation.
pub open spec fn past_of(a: Lifecycle) -> Seq<char> {
    match a {
        Lifecycle::Start => "started"@,
        Lifecycle::Stop => "stopped"@,
        Lifecycle::Restart => "restarted"@,
    }
}

impl Lifecycle {
    /// The `ddev` subcommand of this operation.
    pub fn verb(self) -> (r: &'static str)
        ensures
            r@ == verb_of(self),
    {
        match self {
            Lifecycle::Start => "start",
            Lifecycle::Stop => "stop",
            Lifecycle::Restart => "restart",
        }
    }

    /// The past participle of this operation.
    pub fn past(self) -> (r: &'static str)
        ensures
            r@ == past_of(self),
    {
        match self {
            Lifecycle::Start => "started",
            Lifecycle::Stop => "stopped",
            Lifecycle::Restart => "restarted",
        }
    }

    /// Reads the outcome of running `ddev <verb> <name>` for this operation.
    pub fn read_outcome(self, name: &str, outcome: &CommandOutcome) -> (r: Result<(), DdevError>)
        ensures
            match r {
                Ok(()) => done(run_result(lifecycle_words(verb_of(self), name@), *outcome)) is Ok,
                Err(e) => done(run_result(lifecycle_words(verb_of(self), name@), *outcome))
                    == Err::<(), DdevFault>(e@),
            },
    {
        match self {
            Lifecycle::Start => start_project(name, outcome),
            Lifecycle::Stop => stop_project(name, outcome),
            Lifecycle::Restart => restart_project(name, outcome),
        }
    }
}

/// A desktop notification to show.
#[derive(Debug)]
pub struct Notice {
    pub title: String,
    pub body: String,
}

/// What finishing a lifecycle operation produces: the notification to show,
/// if any, and the reply to the dashboard.
#[derive(Debug)]
pub struct LifecycleReport {
    pub notice: Option<Notice>,
    pub reply: Result<(), String>,
}

/// The notification title for a finished operation.
pub open spec fn notice_title(res: Result<(), DdevFault>) -> Seq<char> {
    match res {
        Ok(()) => "DDEV"@,
        Err(_) => "DDEV error"@,
    }
}

/// The notification text for a finished operation on project `name`.
pub open spec fn notice_body(name: Seq<char>, a: Lifecycle, res: Result<(), DdevFault>) -> Seq<char> {
    match res {
        Ok(()) => name + " "@ + past_of(a),
        Err(e) => name + " failed to "@ + verb_of(a) + ": "@ + fault_message(e),
    }
}

/// What a finished lifecycle operation reports, given whether notifications
/// are on: a notice exactly when they are, and a reply that carries the
/// error's text when the operation failed.
pub open spec fn report_matches(
    r: LifecycleReport,
    notifications: bool,
    name: Seq<char>,
    a: Lifecycle,
    res: Result<(), DdevFault>,
) -> bool {
    &&& (r.notice is Some <==> notifications)
    &&& (r.notice matches Some(n) ==> n.title@ == notice_title(res) && n.body@ == notice_body(
        name,
        a,
        res,
    ))
    &&& match res {
        Ok(()) => r.reply is Ok,
        Err(e) => r.reply matches Err(m) && m@ == fault_message(e),
    }
}

/// Decides what running operation `action` on project `name` reports, from
/// the outcome of running `ddev <verb> <name>` and the notification
/// preference.
pub fn finish_lifecycle(
    notifications: bool,
    name: &str,
    action: Lifecycle,
    outcome: &CommandOutcome,
) -> (r: LifecycleReport)
    ensures
        report_matches(
            r,
            notifications,
            name@,
            action,
            done(run_result(lifecycle_words(verb_of(action), name@), *outcome)),
        ),
{
    let result = action.read_outcome(name, outcome);
    let notice = if notifications {
        match &result {
            Ok(()) => {
                let mut body = name.to_string();
                body.append(" ");
                body.append(action.past());
                Some(Notice { title: "DDEV".to_string(), body })
            },
            Err(e) => {
                let mut body = name.to_string();
                body.append(" failed to ");
                body.append(action.verb());
                body.append(": ");
                let m = e.message();
                body.append(m.as_str());
                Some(Notice { title: "DDEV error".to_string(), body })
            },
        }
    } else {
        None
    };
    let reply = match &result {
        Ok(()) => Ok(()),
        Err(e) => Err(e.message()),
    };
    LifecycleReport { notice, reply }
}

/// With notifications switched off, finishing an operation never yields a
/// notification, whatever its outcome.
pub proof fn lemma_no_notice_when_disabled(
    r: LifecycleReport,
    name: Seq<char>,
    a: Lifecycle,
    res: Result<(), DdevFault>,
)
    requires
        report_matches(r, false, name, a, res),
    ensures
        r.notice is None,
{
}

// ---------- Shell in a project ----------

/// The shell command that opens `ddev ssh` for project `name` and then
/// leaves the user in a shell.
pub open spec fn ssh_command_text(name: Seq<char>) -> Seq<char> {
    "ddev ssh "@ + name + "; exec $SHELL"@
}

/// The shell command that opens `ddev ssh` for project `name`.
pub fn ssh_command(name: &str) -> (r: String)
    ensures
        r@ == ssh_command_text(name@),
        r@ == "ddev ssh "@ + name@ + "; exec $SHELL"@,
{
    let mut r = "ddev ssh ".to_string();
    r.append(name);
    r.append("; exec $SHELL");
    r
}

/// A terminal emulator to try, with the arguments that make it run a shell
/// command.
#[derive(Debug)]
pub struct TerminalLaunch {
    pub program: String,
    pub args: Vec<String>,
}

/// The terminal emulators tried, in order.
pub open spec fn terminal_programs() -> Seq<Seq<char>> {
    seq![
        "x-terminal-emulator"@,
        "gnome-terminal"@,
        "konsole"@,
        "xfce4-terminal"@,
        "xterm"@,
        "alacritty"@,
    ]
}

/// The arguments that make terminal number `i` run `cmd` through bash.
pub open spec fn terminal_args(i: int, cmd: Seq<char>) -> Seq<Seq<char>> {
    let flag = if i == 1 {
        "--"@
    } else {
        "-e"@
    };
    seq![flag, "bash"@, "-c"@, cmd]
}

/// How many terminal emulators are tried.
pub open spec fn terminal_count() -> int {
    6
}

/// One terminal launch.
fn launch(program: &str, flag: &str, cmd: &str) -> (r: TerminalLaunch)
    ensures
        r.program@ == program@,
        str_views(r.args@) == seq![flag@, "bash"@, "-c"@, cmd@],
{
    let mut args: Vec<String> = Vec::new();
    args.push(flag.to_string());
    args.push("bash".to_string());
    args.push("-c".to_string());
    args.push(cmd.to_string());
    assert(str_views(args@) =~= seq![flag@, "bash"@, "-c"@, cmd@]);
    TerminalLaunch { program: program.to_string(), args }
}

/// The terminal emulators to try for running `cmd`, in order.
pub fn terminal_candidates(cmd: &str) -> (r: Vec<TerminalLaunch>)
    ensures
        r.len() == terminal_count(),
        forall|i: int|
            0 <= i < r.len() ==> (#[trigger] r@[i]).program@ == terminal_programs()[i]
                && str_views(r@[i].args@) == terminal_args(i, cmd@),
        r@[0].program@ == "x-terminal-emulator"@,
        r@[1].program@ == "gnome-terminal"@,
        r@[2].program@ == "konsole"@,
        r@[3].program@ == "xfce4-terminal"@,
        r@[4].program@ == "xterm"@,
        r@[5].program@ == "alacritty"@,
        str_views(r@[1].args@) == seq!["--"@, "bash"@, "-c"@, cmd@],
        forall|i: int|
            0 <= i < 6 && i != 1 ==> str_views((#[trigger] r@[i]).args@) == seq![
                "-e"@,
                "bash"@,
                "-c"@,
                cmd@,
            ],
{
    let mut r: Vec<TerminalLaunch> = Vec::new();
    r.push(launch("x-terminal-emulator", "-e", cmd));
    r.push(launch("gnome-terminal", "--", cmd));
    r.push(launch("konsole", "-e", cmd));
    r.push(launch("xfce4-terminal", "-e", cmd));
    r.push(launch("xterm", "-e", cmd));
    r.push(launch("alacritty", "-e", cmd));
    r
}

/// The next step in opening a shell: try a terminal, or stop.
#[derive(Debug)]
pub enum SshStep {
    /// Try to start terminal number `i` of `terminal_candidates`.
    Spawn(usize),
    /// A terminal started.
    Done,
    /// No terminal could be started; the text says so.
    Failed(String),
}

/// The message when no terminal emulator could be started.
pub open spec fn no_terminal_message() -> Seq<char> {
    "No supported terminal emulator found (tried x-terminal-emulator, gnome-terminal, konsole, xfce4-terminal, xterm, alacritty). Please install one."@
}

/// Decides the next step after `tried` terminals were tried, the last of
/// them with result `spawned`: stop at the first one that started, else try
/// the next, and fail once every one was tried.
pub fn ssh_next(tried: usize, spawned: bool) -> (r: SshStep)
    ensures
        spawned ==> r is Done,
        !spawned && tried < terminal_count() ==> (r matches SshStep::Spawn(i) && i == tried),
        !spawned && tried >= terminal_count() ==> (r matches SshStep::Failed(m)
            && m@ == no_terminal_message()),
{
    if spawned {
        SshStep::Done
    } else if tried < 6 {
        SshStep::Spawn(tried)
    } else {
        SshStep::Failed(
            "No supported terminal emulator found (tried x-terminal-emulator, gnome-terminal, konsole, xfce4-terminal, xterm, alacritty). Please install one.".to_string(),
        )
    }
}

// ---------- Project configuration ----------

/// The text of a boolean, as `bool`'s `Display` writes it.
pub open spec fn bool_text(b: bool) -> Seq<char> {
    if b {
        "true"@
    } else {
        "false"@
    }
}

/// The arguments of `ddev config` that set a project's PHP version,
/// database, Xdebug, Node.js version and web server.
pub open spec fn config_words(
    php: Seq<char>,
    database: Seq<char>,
    xdebug: bool,
    nodejs: Seq<char>,
    webserver: Seq<char>,
) -> Seq<Seq<char>> {
    seq![
        "config"@,
        "--php-version="@ + php,
        "--database="@ + database,
        "--xdebug-enabled="@ + bool_text(xdebug),
        "--nodejs-version="@ + nodejs,
        "--webserver-type="@ + webserver,
    ]
}

/// `prefix` followed by `value`.
fn joined(prefix: &str, value: &str) -> (r: String)
    ensures
        r@ == prefix@ + value@,
{
    let mut r = prefix.to_string();
    r.append(value);
    r
}

/// The arguments to run `ddev config` with, in the project's root.
pub fn config_args(
    php_version: &str,
    database: &str,
    xdebug_enabled: bool,
    nodejs_version: &str,
    webserver_type: &str,
) -> (r: Vec<String>)
    ensures
        str_views(r@) == config_words(
            php_version@,
            database@,
            xdebug_enabled,
            nodejs_version@,
            webserver_type@,
        ),
        str_views(r@) == seq![
            "config"@,
            "--php-version="@ + php_version@,
            "--database="@ + database@,
            "--xdebug-enabled="@ + (if xdebug_enabled {
                "true"@
            } else {
                "false"@
            }),
            "--nodejs-version="@ + nodejs_version@,
            "--webserver-type="@ + webserver_type@,
        ],
{
    let mut r: Vec<String> = Vec::new();
    r.push("config".to_string());
    r.push(joined("--php-version=", php_version));
    r.push(joined("--database=", database));
    r.push(joined("--xdebug-enabled=", if xdebug_enabled { "true" } else { "false" }));
    r.push(joined("--nodejs-version=", nodejs_version));
    r.push(joined("--webserver-type=", webserver_type));
    assert(str_views(r@) =~= config_words(
        php_version@,
        database@,
        xdebug_enabled,
        nodejs_version@,
        webserver_type@,
    ));
    r
}

/// The reply for a run of an outside program whose output is not used:
/// the start error's text, the trimmed standard error of a failed run (or
/// `fallback` when that is empty), or success.
pub open spec fn plain_result(o: CommandOutcome, fallback: Seq<char>) -> Result<(), Seq<char>> {
    match o {
        CommandOutcome::Unstarted { message, .. } => Err(message@),
        CommandOutcome::Exited { success, stderr, .. } => if success {
            Ok(())
        } else {
            let e = trim(utf8_lossy(stderr@));
            if e.len() == 0 {
                Err(fallback)
            } else {
                Err(e)
            }
        },
    }
}

/// The error text of a failed run: the trimmed standard error, or
/// `fallback` when that is empty.
fn failure_text(stderr: &Vec<u8>, fallback: &str) -> (r: String)
    ensures
        trim(utf8_lossy(stderr@)).len() == 0 ==> r@ == fallback@,
        trim(utf8_lossy(stderr@)).len() != 0 ==> r@ == trim(utf8_lossy(stderr@)),
{
    let e = lossy_string(stderr.as_slice());
    let ec = chars_of(e.as_str());
    let et = trim_chars(&ec);
    if et.len() == 0 {
        fallback.to_string()
    } else {
        string_from_chars(et.as_slice())
    }
}

/// The reply for the outcome of running `ddev` with `config_args(..)`.
pub fn config_result(outcome: &CommandOutcome) -> (r: Result<(), String>)
    ensures
        match r {
            Ok(()) => plain_result(*outcome, "Failed to update DDEV configuration"@) is Ok,
            Err(m) => plain_result(*outcome, "Failed to update DDEV configuration"@) == Err::<
                (),
                Seq<char>,
            >(m@),
        },
{
    match outcome {
        CommandOutcome::Unstarted { message, .. } => Err(message.clone()),
        CommandOutcome::Exited { success, stderr, .. } => {
            if *success {
                Ok(())
            } else {
                Err(failure_text(stderr, "Failed to update DDEV configuration"))
            }
        },
    }
}

// ---------- Containers ----------

/// One row of `docker ps`: container id, name, status and image.
#[derive(Debug)]
pub struct PsEntry {
    pub id: String,
    pub name: String,
    pub status: String,
    pub image: String,
}

/// The texts of a `docker ps` row: id, name, status, image.
pub type PsRow = (Seq<char>, Seq<char>, Seq<char>, Seq<char>);

impl View for PsEntry {
    type V = PsRow;

    open spec fn view(&self) -> PsRow {
        (self.id@, self.name@, self.status@, self.image@)
    }
}

/// The views of a list of rows.
pub open spec fn entry_views(es: Seq<PsEntry>) -> Seq<PsRow> {
    es.map_values(|e: PsEntry| e@)
}

/// The rows of `docker ps` output: each line split at tabs, kept when it
/// has at least four fields, of which the first four are used.
pub open spec fn rows_of(lines: Seq<Seq<char>>) -> Seq<PsRow>
    decreases lines.len(),
{
    if lines.len() == 0 {
        Seq::empty()
    } else {
        let prev = rows_of(lines.drop_last());
        let parts = split_char(lines.last(), '\t');
        if parts.len() >= 4 {
            prev.push((parts[0], parts[1], parts[2], parts[3]))
        } else {
            prev
        }
    }
}

/// The container rows that a run of `docker ps` gives, or why it gives
/// none.
pub open spec fn ps_result(o: CommandOutcome) -> Result<Seq<PsRow>, Seq<char>> {
    match o {
        CommandOutcome::Unstarted { message, .. } => Err(message@),
        CommandOutcome::Exited { success, stdout, stderr, .. } => if success {
            Ok(rows_of(text_lines(utf8_lossy(stdout@))))
        } else {
            let e = trim(utf8_lossy(stderr@));
            if e.len() == 0 {
                Err("Failed to run docker ps"@)
            } else {
                Err(e)
            }
        },
    }
}

/// The arguments of `docker ps` that list project `name`'s containers.
pub open spec fn ps_words(name: Seq<char>) -> Seq<Seq<char>> {
    seq![
        "ps"@,
        "--filter"@,
        "label=com.ddev.site-name="@ + name,
        "--format"@,
        "{{.ID}}\t{{.Names}}\t{{.Status}}\t{{.Image}}"@,
    ]
}

/// The arguments to run `docker` with to list project `name`'s containers.
pub fn docker_ps_args(name: &str) -> (r: Vec<String>)
    ensures
        str_views(r@) == ps_words(name@),
        str_views(r@) == seq![
            "ps"@,
            "--filter"@,
            "label=com.ddev.site-name="@ + name@,
            "--format"@,
            "{{.ID}}\t{{.Names}}\t{{.Status}}\t{{.Image}}"@,
        ],
{
    let mut r: Vec<String> = Vec::new();
    r.push("ps".to_string());
    r.push("--filter".to_string());
    r.push(joined("label=com.ddev.site-name=", name));
    r.push("--format".to_string());
    r.push("{{.ID}}\t{{.Names}}\t{{.Status}}\t{{.Image}}".to_string());
    assert(str_views(r@) =~= ps_words(name@));
    r
}

/// Reads the outcome of running `docker` with `docker_ps_args(name)`.
pub fn ps_entries(outcome: &CommandOutcome) -> (r: Result<Vec<PsEntry>, String>)
    ensures
        match r {
            Ok(es) => ps_result(*outcome) == Ok::<Seq<PsRow>, Seq<char>>(entry_views(es@)),
            Err(m) => ps_result(*outcome) == Err::<Seq<PsRow>, Seq<char>>(m@),
        },
{
    match outcome {
        CommandOutcome::Unstarted { message, .. } => Err(message.clone()),
        CommandOutcome::Exited { success, stdout, stderr, .. } => {
            if !*success {
                return Err(failure_text(stderr, "Failed to run docker ps"));
            }
            let text = lossy_string(stdout.as_slice());
            let cs = chars_of(text.as_str());
            let lines = lines_of(&cs);
            let ghost ls = views(lines@);
            let mut out: Vec<PsEntry> = Vec::new();
            let mut i: usize = 0;
            proof {
                assert(ls.take(0) =~= Seq::<Seq<char>>::empty());
                assert(entry_views(out@) =~= rows_of(ls.take(0)));
            }
            while i < lines.len()
                invariant
                    i <= lines.len(),
                    ls == views(lines@),
                    entry_views(out@) == rows_of(ls.take(i as int)),
                decreases lines.len() - i,
            {
                proof {
                    assert(ls.take(i + 1).drop_last() =~= ls.take(i as int));
                    assert(ls.take(i + 1).last() == lines@[i as int]@);
                }
                let parts = split_on(&lines[i], '\t');
                if parts.len() >= 4 {
                    let e = PsEntry {
                        id: string_from_chars(parts[0].as_slice()),
                        name: string_from_chars(parts[1].as_slice()),
                        status: string_from_chars(parts[2].as_slice()),
                        image: string_from_chars(parts[3].as_slice()),
                    };
                    proof {
                        assert(views(parts@)[0] == parts@[0]@);
                        assert(views(parts@)[1] == parts@[1]@);
                        assert(views(parts@)[2] == parts@[2]@);
                        assert(views(parts@)[3] == parts@[3]@);
                    }
                    out.push(e);
                    assert(entry_views(out@) =~= rows_of(ls.take(i + 1)));
                } else {
                    assert(entry_views(out@) =~= rows_of(ls.take(i + 1)));
                }
                i += 1;
            }
            proof {
                assert(ls.take(lines.len() as int) =~= ls);
            }
            Ok(out)
        },
    }
}

/// The arguments of `docker stats` for the listed containers.
pub open spec fn stats_words(rows: Seq<PsRow>) -> Seq<Seq<char>> {
    seq!["stats"@, "--no-stream"@, "--format"@, "json"@] + rows.map_values(|r: PsRow| r.1)
}

/// The arguments to run `docker` with to read the listed containers'
/// statistics; `None` when there are no containers, in which case the
/// container list is empty and nothing more is run.
pub fn stats_args(entries: &Vec<PsEntry>) -> (r: Option<Vec<String>>)
    ensures
        r is None <==> entries.len() == 0,
        r matches Some(a) ==> str_views(a@) == stats_words(entry_views(entries@)),
        r matches Some(a) ==> a.len() == entries.len() + 4 && str_views(a@).take(4) == seq![
            "stats"@,
            "--no-stream"@,
            "--format"@,
            "json"@,
        ] && forall|i: int| 0 <= i < entries.len() ==> (#[trigger] a@[i + 4])@ == entries@[i].name@,
{
    if entries.len() == 0 {
        return None;
    }
    let mut r: Vec<String> = Vec::new();
    r.push("stats".to_string());
    r.push("--no-stream".to_string());
    r.push("--format".to_string());
    r.push("json".to_string());
    let ghost head = str_views(r@);
    let ghost rows = entry_views(entries@);
    let mut i: usize = 0;
    proof {
        assert(head == seq!["stats"@, "--no-stream"@, "--format"@, "json"@]);
    }
    while i < entries.len()
        invariant
            i <= entries.len(),
            rows == entry_views(entries@),
            head == seq!["stats"@, "--no-stream"@, "--format"@, "json"@],
            str_views(r@) == head + rows.take(i as int).map_values(|x: PsRow| x.1),
        decreases entries.len() - i,
    {
        let ghost before = str_views(r@);
        r.push(entries[i].name.clone());
        proof {
            assert(rows[i as int] == entries@[i as int]@);
            assert(str_views(r@) =~= before.push(entries@[i as int].name@));
            assert(rows.take(i + 1).map_values(|x: PsRow| x.1) =~= rows.take(i as int).map_values(
                |x: PsRow| x.1,
            ).push(rows[i as int].1));
            assert(str_views(r@) =~= head + rows.take(i + 1).map_values(|x: PsRow| x.1));
        }
        i += 1;
    }
    proof {
        assert(rows.take(entries.len() as int) =~= rows);
        assert(str_views(r@).take(4) =~= head);
        assert forall|i: int| 0 <= i < entries.len() implies (#[trigger] r@[i + 4])@
            == entries@[i].name@ by {
            assert(str_views(r@)[i + 4] == r@[i + 4]@);
            assert(rows[i] == entries@[i]@);
        }
    }
    Some(r)
}

/// Statistics and state of one container.
#[derive(Debug)]
pub struct ContainerInfo {
    pub id: String,
    pub name: String,
    pub status: String,
    pub image: String,
    pub cpu_perc: String,
    pub mem_usage: String,
    pub mem_perc: String,
    pub net_io: String,
    pub block_io: String,
    pub pids: String,
}

/// The mathematical form of a [`ContainerInfo`].
pub struct ContainerInfoView {
    pub id: Seq<char>,
    pub name: Seq<char>,
    pub status: Seq<char>,
    pub image: Seq<char>,
    pub cpu_perc: Seq<char>,
    pub mem_usage: Seq<char>,
    pub mem_perc: Seq<char>,
    pub net_io: Seq<char>,
    pub block_io: Seq<char>,
    pub pids: Seq<char>,
}

impl View for ContainerInfo {
    type V = ContainerInfoView;

    open spec fn view(&self) -> ContainerInfoView {
        ContainerInfoView {
            id: self.id@,
            name: self.name@,
            status: self.status@,
            image: self.image@,
            cpu_perc: self.cpu_perc@,
            mem_usage: self.mem_usage@,
            mem_perc: self.mem_perc@,
            net_io: self.net_io@,
            block_io: self.block_io@,
            pids: self.pids@,
        }
    }
}

/// The views of a list of container infos.
pub open spec fn info_views(cs: Seq<ContainerInfo>) -> Seq<ContainerInfoView> {
    cs.map_values(|c: ContainerInfo| c@)
}

/// Member `key` of `v` when it is a string, else `default`.
pub open spec fn text_field(v: Json, key: Seq<char>, default: Seq<char>) -> Seq<char> {
    match json_get(v, key) {
        Some(j) => match json_str(j) {
            Some(s) => s,
            None => default,
        },
        None => default,
    }
}

/// The first row whose container name is `name` or `/` followed by `name`.
pub open spec fn row_for(rows: Seq<PsRow>, name: Seq<char>) -> Option<PsRow>
    decreases rows.len(),
{
    if rows.len() == 0 {
        None
    } else if rows[0].1 == name || rows[0].1 == seq!['/'] + name {
        Some(rows[0])
    } else {
        row_for(rows.drop_first(), name)
    }
}

/// The container info that one `docker stats` record gives, with status and
/// image taken from the matching `docker ps` row.
pub open spec fn info_of(v: Json, rows: Seq<PsRow>) -> ContainerInfoView {
    let name = text_field(v, "Name"@, Seq::empty());
    let row = row_for(rows, name);
    ContainerInfoView {
        id: text_field(v, "ID"@, Seq::empty()),
        name,
        status: match row {
            Some(r) => r.2,
            None => "unknown"@,
        },
        image: match row {
            Some(r) => r.3,
            None => "unknown"@,
        },
        cpu_perc: text_field(v, "CPUPerc"@, "0%"@),
        mem_usage: text_field(v, "MemUsage"@, "0MiB / 0GiB"@),
        mem_perc: text_field(v, "MemPerc"@, "0%"@),
        net_io: text_field(v, "NetIO"@, "0B / 0B"@),
        block_io: text_field(v, "BlockIO"@, "0B / 0B"@),
        pids: text_field(v, "PIDs"@, "0"@),
    }
}

/// The container infos that `docker stats` lines give: every line that,
/// trimmed, is not empty and parses as JSON gives one.
pub open spec fn infos_of(lines: Seq<Seq<char>>, rows: Seq<PsRow>) -> Seq<ContainerInfoView>
    decreases lines.len(),
{
    if lines.len() == 0 {
        Seq::empty()
    } else {
        let prev = infos_of(lines.drop_last(), rows);
        let t = trim(lines.last());
        if t.len() > 0 && json_parse(t) is Some {
            prev.push(info_of(json_parse(t)->0, rows))
        } else {
            prev
        }
    }
}

/// The container list that a run of `docker stats` gives; its exit status
/// is not looked at.
pub open spec fn stats_result(rows: Seq<PsRow>, o: CommandOutcome) -> Result<Seq<ContainerInfoView>, Seq<char>> {
    match o {
        CommandOutcome::Unstarted { message, .. } => Err(message@),
        CommandOutcome::Exited { stdout, .. } => Ok(infos_of(text_lines(utf8_lossy(stdout@)), rows)),
    }
}

/// Member `key` of `v` when it is a string, else `default`.
fn text_field_of(v: &Json, key: &str, default: &str) -> (r: String)
    ensures
        r@ == text_field(*v, key@, default@),
{
    match v.get(key) {
        Some(j) => match j.as_str() {
            Some(s) => s.to_string(),
            None => default.to_string(),
        },
        None => default.to_string(),
    }
}

/// The index of the first row whose name is `name` or `/` followed by it.
fn find_row(entries: &Vec<PsEntry>, name: &String) -> (r: Option<usize>)
    ensures
        r is None ==> row_for(entry_views(entries@), name@) is None,
        r matches Some(i) ==> i < entries.len() && row_for(entry_views(entries@), name@) == Some(
            entries@[i as int]@,
        ),
{
    let slash = joined("/", name.as_str());
    let ghost rows = entry_views(entries@);
    let mut i: usize = 0;
    proof {
        reveal_strlit("/");
        assert(slash@ =~= seq!['/'] + name@);
        assert(rows.skip(0) =~= rows);
    }
    while i < entries.len()
        invariant
            i <= entries.len(),
            rows == entry_views(entries@),
            slash@ == seq!['/'] + name@,
            row_for(rows, name@) == row_for(rows.skip(i as int), name@),
        decreases entries.len() - i,
    {
        proof {
            assert(rows.skip(i as int)[0] == entries@[i as int]@);
            assert(rows.skip(i as int).drop_first() =~= rows.skip(i + 1));
        }
        if entries[i].name == *name || entries[i].name == slash {
            return Some(i);
        }
        i += 1;
    }
    proof {
        assert(rows.skip(i as int).len() == 0);
    }
    None
}

/// The container info of one parsed `docker stats` record, with status and
/// image from the matching `docker ps` row.
pub fn container_info(v: &Json, entries: &Vec<PsEntry>) -> (r: ContainerInfo)
    ensures
        r@ == info_of(*v, entry_views(entries@)),
{
    proof {
        reveal_strlit("");
        assert(""@ =~= Seq::<char>::empty());
    }
    let name = text_field_of(v, "Name", "");
    let ghost row = row_for(entry_views(entries@), name@);
    let (status, image) = match find_row(entries, &name) {
        Some(i) => {
            let st = entries[i].status.clone();
            let im = entries[i].image.clone();
            proof {
                let rr = entries@[i as int]@;
                assert(row == Some(rr));
                assert(st@ == rr.2);
                assert(im@ == rr.3);
            }
            (st, im)
        },
        None => {
            let st = "unknown".to_string();
            let im = "unknown".to_string();
            assert(row is None);
            (st, im)
        },
    };
    let r = ContainerInfo {
        id: text_field_of(v, "ID", ""),
        name,
        status,
        image,
        cpu_perc: text_field_of(v, "CPUPerc", "0%"),
        mem_usage: text_field_of(v, "MemUsage", "0MiB / 0GiB"),
        mem_perc: text_field_of(v, "MemPerc", "0%"),
        net_io: text_field_of(v, "NetIO", "0B / 0B"),
        block_io: text_field_of(v, "BlockIO", "0B / 0B"),
        pids: text_field_of(v, "PIDs", "0"),
    };
    r
}

/// Reads the outcome of running `docker` with `stats_args(entries)`.
pub fn container_infos(entries: &Vec<PsEntry>, outcome: &CommandOutcome) -> (r: Result<
    Vec<ContainerInfo>,
    String,
>)
    ensures
        match r {
            Ok(cs) => stats_result(entry_views(entries@), *outcome) == Ok::<
                Seq<ContainerInfoView>,
                Seq<char>,
            >(info_views(cs@)),
            Err(m) => stats_result(entry_views(entries@), *outcome) == Err::<
                Seq<ContainerInfoView>,
                Seq<char>,
            >(m@),
        },
{
    match outcome {
        CommandOutcome::Unstarted { message, .. } => Err(message.clone()),
        CommandOutcome::Exited { stdout, .. } => {
            let text = lossy_string(stdout.as_slice());
            let cs = chars_of(text.as_str());
            let lines = lines_of(&cs);
            let ghost ls = views(lines@);
            let ghost rows = entry_views(entries@);
            let mut out: Vec<ContainerInfo> = Vec::new();
            let mut i: usize = 0;
            proof {
                assert(ls.take(0) =~= Seq::<Seq<char>>::empty());
                assert(info_views(out@) =~= infos_of(ls.take(0), rows));
            }
            while i < lines.len()
                invariant
                    i <= lines.len(),
                    ls == views(lines@),
                    rows == entry_views(entries@),
                    info_views(out@) == infos_of(ls.take(i as int), rows),
                decreases lines.len() - i,
            {
                proof {
                    assert(ls.take(i + 1).drop_last() =~= ls.take(i as int));
                    assert(ls.take(i + 1).last() == lines@[i as int]@);
                }
                let t = trim_chars(&lines[i]);
                if t.len() > 0 {
                    let ts = string_from_chars(t.as_slice());
                    match parse_json(ts.as_str()) {
                        Some(v) => {
                            let c = container_info(&v, entries);
                            out.push(c);
                            assert(info_views(out@) =~= infos_of(ls.take(i + 1), rows));
                        },
                        None => {
                            assert(info_views(out@) =~= infos_of(ls.take(i + 1), rows));
                        },
                    }
                } else {
                    assert(info_views(out@) =~= infos_of(ls.take(i + 1), rows));
                }
                i += 1;
            }
            proof {
                assert(ls.take(lines.len() as int) =~= ls);
            }
            Ok(out)
        },
    }
}

/// The text of member `key` of a record when it is a string.
pub open spec fn record_text(v: Json, key: Seq<char>) -> Option<Seq<char>> {
    match json_get(v, key) {
        Some(Json::Str(s)) => Some(s@),
        _ => None,
    }
}

/// A `docker stats` record gives each figure from the member of Docker's
/// name for it (`ID`, `Name`, `CPUPerc`, `MemUsage`, `MemPerc`, `NetIO`,
/// `BlockIO`, `PIDs`), with a zero reading where it is missing; status and
/// image come from the first `docker ps` row named like the record, with or
/// without a leading `/`, and are `unknown` when there is none.
pub proof fn lemma_container_fields(v: Json, rows: Seq<PsRow>)
    ensures
        ({
            let c = info_of(v, rows);
            let or = |o: Option<Seq<char>>, d: Seq<char>|
                match o {
                    Some(t) => t,
                    None => d,
                };
            &&& c.id == or(record_text(v, "ID"@), Seq::empty())
            &&& c.name == or(record_text(v, "Name"@), Seq::empty())
            &&& c.cpu_perc == or(record_text(v, "CPUPerc"@), "0%"@)
            &&& c.mem_usage == or(record_text(v, "MemUsage"@), "0MiB / 0GiB"@)
            &&& c.mem_perc == or(record_text(v, "MemPerc"@), "0%"@)
            &&& c.net_io == or(record_text(v, "NetIO"@), "0B / 0B"@)
            &&& c.block_io == or(record_text(v, "BlockIO"@), "0B / 0B"@)
            &&& c.pids == or(record_text(v, "PIDs"@), "0"@)
        }),
{
}

/// The first row named `name` or `/name` gives the status and image.
pub proof fn lemma_container_row(v: Json, rows: Seq<PsRow>, k: int)
    requires
        0 <= k < rows.len(),
        rows[k].1 == info_of(v, rows).name || rows[k].1 == seq!['/'] + info_of(v, rows).name,
        forall|j: int|
            0 <= j < k ==> (#[trigger] rows[j]).1 != info_of(v, rows).name && rows[j].1 != seq![
                '/',
            ] + info_of(v, rows).name,
    ensures
        info_of(v, rows).status == rows[k].2,
        info_of(v, rows).image == rows[k].3,
{
    lemma_row_first(rows, info_of(v, rows).name, k);
}

/// Without a row of that name, status and image are `unknown`.
pub proof fn lemma_container_without_row(v: Json, rows: Seq<PsRow>)
    requires
        forall|j: int|
            0 <= j < rows.len() ==> (#[trigger] rows[j]).1 != info_of(v, rows).name && rows[j].1
                != seq!['/'] + info_of(v, rows).name,
    ensures
        info_of(v, rows).status == "unknown"@,
        info_of(v, rows).image == "unknown"@,
{
    lemma_row_none(rows, info_of(v, rows).name);
}

proof fn lemma_row_first(rows: Seq<PsRow>, name: Seq<char>, k: int)
    requires
        0 <= k < rows.len(),
        rows[k].1 == name || rows[k].1 == seq!['/'] + name,
        forall|j: int|
            0 <= j < k ==> (#[trigger] rows[j]).1 != name && rows[j].1 != seq!['/'] + name,
    ensures
        row_for(rows, name) == Some(rows[k]),
    decreases k,
{
    if k > 0 {
        assert forall|j: int| 0 <= j < k - 1 implies (#[trigger] rows.drop_first()[j]).1 != name
            && rows.drop_first()[j].1 != seq!['/'] + name by {
            assert(rows.drop_first()[j] == rows[j + 1]);
        }
        lemma_row_first(rows.drop_first(), name, k - 1);
    }
}

proof fn lemma_row_none(rows: Seq<PsRow>, name: Seq<char>)
    requires
        forall|j: int|
            0 <= j < rows.len() ==> (#[trigger] rows[j]).1 != name && rows[j].1 != seq!['/']
                + name,
    ensures
        row_for(rows, name) is None,
    decreases rows.len(),
{
    if rows.len() > 0 {
        assert forall|j: int| 0 <= j < rows.len() - 1 implies (#[trigger] rows.drop_first()[j]).1
            != name && rows.drop_first()[j].1 != seq!['/'] + name by {
            assert(rows.drop_first()[j] == rows[j + 1]);
        }
        lemma_row_none(rows.drop_first(), name);
    }
}

/// The notification of a finished operation on `name` is titled `DDEV` and
/// says `<name> started`, `<name> stopped` or `<name> restarted`; for a
/// failure it is titled `DDEV error` and says
/// `<name> failed to <start|stop|restart>: <error>`.
pub proof fn lemma_notice_texts(
    r: LifecycleReport,
    notifications: bool,
    name: Seq<char>,
    a: Lifecycle,
    res: Result<(), DdevFault>,
)
    requires
        report_matches(r, notifications, name, a, res),
        r.notice is Some,
    ensures
        res is Ok ==> r.notice->0.title@ == "DDEV"@ && r.notice->0.body@ == name + " "@ + (
        match a {
            Lifecycle::Start => "started"@,
            Lifecycle::Stop => "stopped"@,
            Lifecycle::Restart => "restarted"@,
        }),
        res matches Err(e) ==> r.notice->0.title@ == "DDEV error"@ && r.notice->0.body@ == name
            + " failed to "@ + (match a {
            Lifecycle::Start => "start"@,
            Lifecycle::Stop => "stop"@,
            Lifecycle::Restart => "restart"@,
        }) + ": "@ + fault_message(e),
{
}

} // verus!
