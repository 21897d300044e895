//! DDEV integration: which `ddev` subcommands to run, what their outcome
//! means, and how the JSON payloads of `ddev list -j` and
//! `ddev describe <name> -j` are read.
//!
//! Running the process is left to the caller, which hands back a
//! [`CommandOutcome`]; everything decided from it is here.

use vstd::prelude::*;

use crate::json::{debug_quote, debug_quoted, json_get, json_str, json_parse, parse_json, take_member, Json};
use crate::text::{
    ascii_lower, chars_lt, chars_of, decimal, decimal_string, join_with_spaces, join_words,
    lemma_lt_asymmetric, lemma_not_lt_transitive, lossy_string, lower_chars, seq_lt, split_lines, split_newlines, str_views, string_from_chars,
    trim, trim_chars, utf8_lossy, views,
};

verus! {

// ---------- Errors ----------

/// Why a `ddev` call did not give the expected result.
#[derive(Debug)]
pub enum DdevError {
    NotFound,
    CommandFailed(String),
    Parse(String),
    Io(String),
}

/// The mathematical form of a [`DdevError`].
pub enum DdevFault {
    NotFound,
    CommandFailed(Seq<char>),
    Parse(Seq<char>),
    Io(Seq<char>),
}

impl View for DdevError {
    type V = DdevFault;

    open spec fn view(&self) -> DdevFault {
        match self {
            DdevError::NotFound => DdevFault::NotFound,
            DdevError::CommandFailed(m) => DdevFault::CommandFailed(m@),
            DdevError::Parse(m) => DdevFault::Parse(m@),
            DdevError::Io(m) => DdevFault::Io(m@),
        }
    }
}

/// The text shown for an error.
pub open spec fn fault_message(e: DdevFault) -> Seq<char> {
    match e {
        DdevFault::NotFound => "`ddev` was not found on your PATH"@,
        DdevFault::CommandFailed(m) => m,
        DdevFault::Parse(m) => "could not parse ddev output: "@ + m,
        DdevFault::Io(m) => "failed to run ddev: "@ + m,
    }
}

impl DdevError {
    /// The text shown for this error.
    pub fn message(&self) -> (r: String)
        ensures
            r@ == fault_message(self@),
    {
        match self {
            DdevError::NotFound => "`ddev` was not found on your PATH".to_string(),
            DdevError::CommandFailed(m) => m.clone(),
            DdevError::Parse(m) => {
                let mut r = "could not parse ddev output: ".to_string();
                r.append(m.as_str());
                r
            },
            DdevError::Io(m) => {
                let mut r = "failed to run ddev: ".to_string();
                r.append(m.as_str());
                r
            },
        }
    }
}

/// A result whose error is taken by its view.
pub open spec fn result_view<T>(r: Result<T, DdevError>) -> Result<T, DdevFault> {
    match r {
        Ok(v) => Ok(v),
        Err(e) => Err(e@),
    }
}

// ---------- Project status ----------

/// Normalized lifecycle status of a project.
#[derive(Debug, Clone, Copy, PartialEq, Eq, Structural)]
pub enum ProjectStatus {
    Running,
    Stopped,
    Paused,
    Starting,
    Unknown,
}

/// The status that a status text reported by DDEV stands for: the text is
/// trimmed and lower-cased (ASCII) before it is matched.
pub open spec fn status_from(s: Seq<char>) -> ProjectStatus {
    let n = ascii_lower(trim(s));
    if n == "running"@ {
        ProjectStatus::Running
    } else if n == "stopped"@ {
        ProjectStatus::Stopped
    } else if n == "paused"@ {
        ProjectStatus::Paused
    } else if n == "starting"@ {
        ProjectStatus::Starting
    } else {
        ProjectStatus::Unknown
    }
}

impl ProjectStatus {
    /// Normalizes a status text reported by DDEV.
    pub fn from_ddev(s: &str) -> (r: Self)
        ensures
            r == status_from(s@),
    {
        let cs = chars_of(s);
        let t = trim_chars(&cs);
        let l = lower_chars(&t);
        let n = string_from_chars(l.as_slice());
        if n == "running".to_string() {
            ProjectStatus::Running
        } else if n == "stopped".to_string() {
            ProjectStatus::Stopped
        } else if n == "paused".to_string() {
            ProjectStatus::Paused
        } else if n == "starting".to_string() {
            ProjectStatus::Starting
        } else {
            ProjectStatus::Unknown
        }
    }
}

// ---------- Projects ----------

/// A project as exposed to the frontend.
#[derive(Debug)]
pub struct Project {
    pub name: String,
    pub status: ProjectStatus,
    pub status_desc: String,
    pub kind: String,
    pub primary_url: String,
    pub http_url: String,
    pub https_url: String,
    pub mailpit_url: String,
    pub approot: String,
    pub shortroot: String,
}

/// The mathematical form of a [`Project`].
pub struct ProjectView {
    pub name: Seq<char>,
    pub status: ProjectStatus,
    pub status_desc: Seq<char>,
    pub kind: Seq<char>,
    pub primary_url: Seq<char>,
    pub http_url: Seq<char>,
    pub https_url: Seq<char>,
    pub mailpit_url: Seq<char>,
    pub approot: Seq<char>,
    pub shortroot: Seq<char>,
}

impl View for Project {
    type V = ProjectView;

    open spec fn view(&self) -> ProjectView {
        ProjectView {
            name: self.name@,
            status: self.status,
            status_desc: self.status_desc@,
            kind: self.kind@,
            primary_url: self.primary_url@,
            http_url: self.http_url@,
            https_url: self.https_url@,
            mailpit_url: self.mailpit_url@,
            approot: self.approot@,
            shortroot: self.shortroot@,
        }
    }
}

/// The views of a list of projects.
pub open spec fn project_views(ps: Seq<Project>) -> Seq<ProjectView> {
    ps.map_values(|p: Project| p@)
}

/// A project entry of `ddev list -j`'s `raw` array, in DDEV's own field
/// names; a field that is missing reads as the empty text.
#[derive(Debug)]
pub struct RawProject {
    pub name: String,
    pub status: String,
    pub status_desc: String,
    pub kind: String,
    pub primary_url: String,
    pub httpurl: String,
    pub httpsurl: String,
    pub mailpit_url: String,
    pub approot: String,
    pub shortroot: String,
}

/// The texts of a raw project's fields, in declaration order.
pub open spec fn raw_fields(r: RawProject) -> Seq<Seq<char>> {
    seq![
        r.name@,
        r.status@,
        r.status_desc@,
        r.kind@,
        r.primary_url@,
        r.httpurl@,
        r.httpsurl@,
        r.mailpit_url@,
        r.approot@,
        r.shortroot@,
    ]
}

/// The project that a raw project's field texts describe.
pub open spec fn project_of_fields(f: Seq<Seq<char>>) -> ProjectView {
    ProjectView {
        name: f[0],
        status: status_from(f[1]),
        status_desc: f[2],
        kind: f[3],
        primary_url: f[4],
        http_url: f[5],
        https_url: f[6],
        mailpit_url: f[7],
        approot: f[8],
        shortroot: f[9],
    }
}

/// The project that a raw project becomes: the same texts, with DDEV's
/// status text normalized.
pub open spec fn project_value(r: RawProject) -> Project {
    Project {
        name: r.name,
        status: status_from(r.status@),
        status_desc: r.status_desc,
        kind: r.kind,
        primary_url: r.primary_url,
        http_url: r.httpurl,
        https_url: r.httpsurl,
        mailpit_url: r.mailpit_url,
        approot: r.approot,
        shortroot: r.shortroot,
    }
}

/// Converts a raw project into a project, normalizing its status.
pub fn project_from_raw(r: RawProject) -> (p: Project)
    ensures
        p == project_value(r),
        p@ == project_of_fields(raw_fields(r)),
{
    Project {
        status: ProjectStatus::from_ddev(r.status.as_str()),
        name: r.name,
        status_desc: r.status_desc,
        kind: r.kind,
        primary_url: r.primary_url,
        http_url: r.httpurl,
        https_url: r.httpsurl,
        mailpit_url: r.mailpit_url,
        approot: r.approot,
        shortroot: r.shortroot,
    }
}

impl From<RawProject> for Project {
    fn from(r: RawProject) -> (p: Project) {
        project_from_raw(r)
    }
}

impl vstd::std_specs::convert::FromSpecImpl<RawProject> for Project {
    open spec fn obeys_from_spec() -> bool {
        true
    }

    open spec fn from_spec(r: RawProject) -> Project {
        project_value(r)
    }
}

// ---------- Reading raw projects ----------

/// How `serde_json` describes a value of the wrong type in its errors.
pub open spec fn unexpected(j: Json) -> Seq<char> {
    match j {
        Json::Null => "null"@,
        Json::Bool(b) => if b {
            "boolean `true`"@
        } else {
            "boolean `false`"@
        },
        Json::Number(t, float) => if float {
            "floating point `"@ + t@ + "`"@
        } else {
            "integer `"@ + t@ + "`"@
        },
        Json::Str(s) => "string "@ + debug_quoted(s@),
        Json::Array(_) => "sequence"@,
        Json::Object(_) => "map"@,
    }
}

/// The message of a type mismatch: found `j` where `expected` was expected.
pub open spec fn invalid_type(j: Json, expected: Seq<char>) -> Seq<char> {
    "invalid type: "@ + unexpected(j) + ", expected "@ + expected
}

/// The message for an array of `n` elements, more than a raw project has fields.
pub open spec fn invalid_length(n: nat) -> Seq<char> {
    "invalid length "@ + decimal(n) + ", expected fewer elements in array"@
}

/// The field that a JSON key names, if any.
pub open spec fn key_index(k: Seq<char>) -> Option<int> {
    if k == "name"@ {
        Some(0)
    } else if k == "status"@ {
        Some(1)
    } else if k == "status_desc"@ {
        Some(2)
    } else if k == "type"@ {
        Some(3)
    } else if k == "primary_url"@ {
        Some(4)
    } else if k == "httpurl"@ {
        Some(5)
    } else if k == "httpsurl"@ {
        Some(6)
    } else if k == "mailpit_url"@ {
        Some(7)
    } else if k == "approot"@ {
        Some(8)
    } else if k == "shortroot"@ {
        Some(9)
    } else {
        None
    }
}

/// All fields empty.
pub open spec fn empty_fields() -> Seq<Seq<char>> {
    Seq::new(10, |i: int| Seq::<char>::empty())
}

/// Reads the members of an object in order: a member whose key names a
/// field must hold a string, which becomes that field; other members are
/// ignored. The first member of the wrong type gives the error.
pub open spec fn decode_members(entries: Seq<(String, Json)>) -> Result<Seq<Seq<char>>, Seq<char>>
    decreases entries.len(),
{
    if entries.len() == 0 {
        Ok(empty_fields())
    } else {
        match decode_members(entries.drop_last()) {
            Err(e) => Err(e),
            Ok(f) => match key_index(entries.last().0@) {
                None => Ok(f),
                Some(i) => match entries.last().1 {
                    Json::Str(s) => Ok(f.update(i, s@)),
                    v => Err(invalid_type(v, "a string"@)),
                },
            },
        }
    }
}

/// Reads the elements of an array as the fields in declaration order; each
/// must hold a string. The first element of the wrong type gives the error.
pub open spec fn decode_elements(items: Seq<Json>) -> Result<Seq<Seq<char>>, Seq<char>>
    decreases items.len(),
{
    if items.len() == 0 {
        Ok(empty_fields())
    } else {
        match decode_elements(items.drop_last()) {
            Err(e) => Err(e),
            Ok(f) => match items.last() {
                Json::Str(s) => Ok(f.update(items.len() - 1, s@)),
                v => Err(invalid_type(v, "a string"@)),
            },
        }
    }
}

/// How one element of the `raw` array reads as a raw project (the field
/// texts in declaration order) or why it does not, as serde's derived
/// `Deserialize` with every field defaulted reads a `serde_json::Value`:
/// an object by its keys, an array by position with at most as many
/// elements as there are fields, and any other value not at all.
pub open spec fn decode_raw(item: Json) -> Result<Seq<Seq<char>>, Seq<char>> {
    match item {
        Json::Object(entries) => decode_members(entries@),
        Json::Array(items) => {
            let n = if items.len() < 10 {
                items.len() as int
            } else {
                10
            };
            match decode_elements(items@.take(n)) {
                Err(e) => Err(e),
                Ok(f) => if items.len() > 10 {
                    Err(invalid_length(items.len() as nat))
                } else {
                    Ok(f)
                },
            }
        },
        other => Err(invalid_type(other, "struct RawProject"@)),
    }
}

/// An error among the first members is the error of the whole object.
proof fn lemma_members_err(entries: Seq<(String, Json)>, i: int)
    requires
        0 <= i <= entries.len(),
        decode_members(entries.take(i)) is Err,
    ensures
        decode_members(entries) == decode_members(entries.take(i)),
    decreases entries.len() - i,
{
    if i < entries.len() {
        assert(entries.drop_last().take(i) =~= entries.take(i));
        lemma_members_err(entries.drop_last(), i);
    } else {
        assert(entries.take(i) =~= entries);
    }
}

/// An error among the first elements is the error of the whole array.
proof fn lemma_elements_err(items: Seq<Json>, i: int)
    requires
        0 <= i <= items.len(),
        decode_elements(items.take(i)) is Err,
    ensures
        decode_elements(items) == decode_elements(items.take(i)),
    decreases items.len() - i,
{
    if i < items.len() {
        assert(items.drop_last().take(i) =~= items.take(i));
        lemma_elements_err(items.drop_last(), i);
    } else {
        assert(items.take(i) =~= items);
    }
}


/// How `serde_json` describes a value of the wrong type.
pub fn unexpected_text(j: &Json) -> (r: String)
    ensures
        r@ == unexpected(*j),
{
    match j {
        Json::Null => "null".to_string(),
        Json::Bool(b) => if *b {
            "boolean `true`".to_string()
        } else {
            "boolean `false`".to_string()
        },
        Json::Number(t, float) => {
            let mut r = if *float {
                "floating point `".to_string()
            } else {
                "integer `".to_string()
            };
            r.append(t.as_str());
            r.append("`");
            r
        },
        Json::Str(s) => {
            let mut r = "string ".to_string();
            let q = debug_quote(s.as_str());
            r.append(q.as_str());
            r
        },
        Json::Array(_) => "sequence".to_string(),
        Json::Object(_) => "map".to_string(),
    }
}

/// The message of a type mismatch.
fn invalid_type_text(j: &Json, expected: &str) -> (r: String)
    ensures
        r@ == invalid_type(*j, expected@),
{
    let mut r = "invalid type: ".to_string();
    let u = unexpected_text(j);
    r.append(u.as_str());
    r.append(", expected ");
    r.append(expected);
    r
}

/// The field that a JSON key names.
fn key_index_of(k: &String) -> (r: Option<usize>)
    ensures
        r matches Some(i) ==> key_index(k@) == Some(i as int),
        r is None ==> key_index(k@) is None,
{
    if *k == "name".to_string() {
        Some(0)
    } else if *k == "status".to_string() {
        Some(1)
    } else if *k == "status_desc".to_string() {
        Some(2)
    } else if *k == "type".to_string() {
        Some(3)
    } else if *k == "primary_url".to_string() {
        Some(4)
    } else if *k == "httpurl".to_string() {
        Some(5)
    } else if *k == "httpsurl".to_string() {
        Some(6)
    } else if *k == "mailpit_url".to_string() {
        Some(7)
    } else if *k == "approot".to_string() {
        Some(8)
    } else if *k == "shortroot".to_string() {
        Some(9)
    } else {
        None
    }
}

/// Ten empty texts.
fn empty_field_texts() -> (r: Vec<String>)
    ensures
        str_views(r@) == empty_fields(),
        r.len() == 10,
{
    let mut r: Vec<String> = Vec::new();
    let mut i: usize = 0;
    while i < 10
        invariant
            i <= 10,
            r.len() == i,
            forall|k: int| 0 <= k < i ==> (#[trigger] r@[k])@ == Seq::<char>::empty(),
        decreases 10 - i,
    {
        r.push(String::new());
        i += 1;
    }
    assert(str_views(r@) =~= empty_fields());
    r
}

/// Removes and returns the last text.
fn pop_text(f: &mut Vec<String>) -> (s: String)
    requires
        old(f).len() > 0,
    ensures
        final(f)@ == old(f)@.drop_last(),
        s == old(f)@.last(),
{
    match f.pop() {
        Some(s) => s,
        None => String::new(),
    }
}

/// The raw project whose field texts are `f`, in declaration order.
fn raw_from_texts(f: Vec<String>) -> (r: RawProject)
    requires
        f.len() == 10,
    ensures
        raw_fields(r) == str_views(f@),
{
    let ghost g = f@;
    let mut f = f;
    let shortroot = pop_text(&mut f);
    let approot = pop_text(&mut f);
    let mailpit_url = pop_text(&mut f);
    let httpsurl = pop_text(&mut f);
    let httpurl = pop_text(&mut f);
    let primary_url = pop_text(&mut f);
    let kind = pop_text(&mut f);
    let status_desc = pop_text(&mut f);
    let status = pop_text(&mut f);
    let name = pop_text(&mut f);
    let r = RawProject {
        name,
        status,
        status_desc,
        kind,
        primary_url,
        httpurl,
        httpsurl,
        mailpit_url,
        approot,
        shortroot,
    };
    assert(raw_fields(r) =~= str_views(g));
    r
}

/// Reads one element of the `raw` array as a raw project.
pub fn decode_raw_project(item: &Json) -> (r: Result<RawProject, String>)
    ensures
        r matches Ok(p) ==> decode_raw(*item) == Ok::<Seq<Seq<char>>, Seq<char>>(raw_fields(p)),
        r matches Err(m) ==> decode_raw(*item) == Err::<Seq<Seq<char>>, Seq<char>>(m@),
{
    match item {
        Json::Object(entries) => {
            let mut f = empty_field_texts();
            let mut i: usize = 0;
            proof {
                assert(entries@.take(0) =~= Seq::<(String, Json)>::empty());
            }
            while i < entries.len()
                invariant
                    *item == Json::Object(*entries),
                    i <= entries.len(),
                    f.len() == 10,
                    decode_members(entries@.take(i as int)) == Ok::<
                        Seq<Seq<char>>,
                        Seq<char>,
                    >(str_views(f@)),
                decreases entries.len() - i,
            {
                proof {
                    assert(entries@.take(i + 1).drop_last() =~= entries@.take(i as int));
                    assert(entries@.take(i + 1).last() == entries@[i as int]);
                }
                match key_index_of(&entries[i].0) {
                    None => {},
                    Some(k) => match &entries[i].1 {
                        Json::Str(s) => {
                            let ghost before = f@;
                            f.set(k, s.clone());
                            assert(str_views(f@) =~= str_views(before).update(k as int, s@));
                        },
                        other => {
                            let m = invalid_type_text(other, "a string");
                            proof {
                                assert(decode_members(entries@.take(i + 1)) == Err::<
                                    Seq<Seq<char>>,
                                    Seq<char>,
                                >(m@));
                                lemma_members_err(entries@, i + 1);
                                assert(decode_members(entries@) == Err::<
                                    Seq<Seq<char>>,
                                    Seq<char>,
                                >(m@));
                            }
                            return Err(m);
                        },
                    },
                }
                i += 1;
            }
            proof {
                assert(entries@.take(entries.len() as int) =~= entries@);
            }
            Ok(raw_from_texts(f))
        },
        Json::Array(items) => {
            let n: usize = if items.len() < 10 {
                items.len()
            } else {
                10
            };
            let ghost head = items@.take(n as int);
            let mut f = empty_field_texts();
            let mut i: usize = 0;
            proof {
                assert(head.take(0) =~= Seq::<Json>::empty());
            }
            while i < n
                invariant
                    *item == Json::Array(*items),
                    n == (if items.len() < 10 {
                        items.len()
                    } else {
                        10
                    }),
                    i <= n <= 10,
                    n <= items.len(),
                    head == items@.take(n as int),
                    f.len() == 10,
                    decode_elements(head.take(i as int)) == Ok::<Seq<Seq<char>>, Seq<char>>(
                        str_views(f@),
                    ),
                decreases n - i,
            {
                proof {
                    assert(head.take(i + 1).drop_last() =~= head.take(i as int));
                    assert(head.take(i + 1).last() == items@[i as int]);
                }
                match &items[i] {
                    Json::Str(s) => {
                        let ghost before = f@;
                        f.set(i, s.clone());
                        assert(str_views(f@) =~= str_views(before).update(i as int, s@));
                    },
                    other => {
                        let m = invalid_type_text(other, "a string");
                        proof {
                            assert(decode_elements(head.take(i + 1)) == Err::<
                                Seq<Seq<char>>,
                                Seq<char>,
                            >(m@));
                            lemma_elements_err(head, i + 1);
                        }
                        return Err(m);
                    },
                }
                i += 1;
            }
            proof {
                assert(head.take(n as int) =~= head);
            }
            if items.len() > 10 {
                let mut m = "invalid length ".to_string();
                let d = decimal_string(items.len());
                m.append(d.as_str());
                m.append(", expected fewer elements in array");
                return Err(m);
            }
            Ok(raw_from_texts(f))
        },
        other => Err(invalid_type_text(other, "struct RawProject")),
    }
}

// ---------- The project list ----------

/// The key projects are listed by: the name, lower-cased (ASCII).
pub open spec fn sort_key(p: ProjectView) -> Seq<char> {
    ascii_lower(p.name)
}

/// `p` inserted into `s` after every project whose key is not greater than
/// its own, scanning from the back.
pub open spec fn insert_by_name(s: Seq<ProjectView>, p: ProjectView) -> Seq<ProjectView>
    decreases s.len(),
{
    if s.len() == 0 {
        seq![p]
    } else if seq_lt(sort_key(p), sort_key(s.last())) {
        insert_by_name(s.drop_last(), p).push(s.last())
    } else {
        s.push(p)
    }
}

/// The projects in order of `sort_key`, projects with equal keys keeping
/// their relative order: the stable sort that `sort_by` performs with a
/// comparison of the lower-cased names.
pub open spec fn sort_by_name(s: Seq<ProjectView>) -> Seq<ProjectView>
    decreases s.len(),
{
    if s.len() == 0 {
        s
    } else {
        insert_by_name(sort_by_name(s.drop_last()), s.last())
    }
}

/// Reads every element of the `raw` array as a raw project; the first
/// element that does not read gives the error.
pub open spec fn decode_all(items: Seq<Json>) -> Result<Seq<Seq<Seq<char>>>, Seq<char>>
    decreases items.len(),
{
    if items.len() == 0 {
        Ok(Seq::empty())
    } else {
        match decode_all(items.drop_last()) {
            Err(e) => Err(e),
            Ok(fs) => match decode_raw(items.last()) {
                Err(e) => Err(e),
                Ok(f) => Ok(fs.push(f)),
            },
        }
    }
}

/// The projects that fields lists describe.
pub open spec fn projects_of(fs: Seq<Seq<Seq<char>>>) -> Seq<ProjectView> {
    fs.map_values(|f: Seq<Seq<char>>| project_of_fields(f))
}

/// The project list that a `raw` payload of `ddev list -j` gives: `null`
/// is the empty list, an array is read element by element and sorted by
/// name, anything else is refused.
pub open spec fn parse_list(raw: Json) -> Result<Seq<ProjectView>, DdevFault> {
    match raw {
        Json::Null => Ok(Seq::empty()),
        Json::Array(items) => match decode_all(items@) {
            Err(e) => Err(DdevFault::Parse(e)),
            Ok(fs) => Ok(sort_by_name(projects_of(fs))),
        },
        _ => Err(DdevFault::Parse("expected `raw` to be an array"@)),
    }
}

/// A project list result taken by its view.
pub open spec fn list_view(r: Result<Vec<Project>, DdevError>) -> Result<Seq<ProjectView>, DdevFault> {
    match r {
        Ok(ps) => Ok(project_views(ps@)),
        Err(e) => Err(e@),
    }
}

/// Where `insert_by_name` puts the new project.
proof fn lemma_insert_at(s: Seq<ProjectView>, p: ProjectView, k: int)
    requires
        0 <= k <= s.len(),
        forall|i: int| k <= i < s.len() ==> seq_lt(sort_key(p), sort_key(#[trigger] s[i])),
        k == 0 || !seq_lt(sort_key(p), sort_key(s[k - 1])),
    ensures
        insert_by_name(s, p) == s.take(k).push(p) + s.skip(k),
    decreases s.len(),
{
    if s.len() == 0 {
        assert(s.take(k).push(p) + s.skip(k) =~= seq![p]);
    } else if k == s.len() {
        assert(s.take(k).push(p) + s.skip(k) =~= s.push(p));
    } else {
        let t = s.drop_last();
        assert forall|i: int| k <= i < t.len() implies seq_lt(sort_key(p), sort_key(#[trigger] t[i])) by {
            assert(t[i] == s[i]);
        }
        if k > 0 {
            assert(t[k - 1] == s[k - 1]);
        }
        assert(s[s.len() - 1] == s.last());
        lemma_insert_at(t, p, k);
        assert(t.take(k).push(p) + t.skip(k) + seq![s.last()] =~= s.take(k).push(p) + s.skip(k));
    }
}

/// An error among the first elements is the error of the whole array.
proof fn lemma_decode_all_err(items: Seq<Json>, i: int)
    requires
        0 <= i <= items.len(),
        decode_all(items.take(i)) is Err,
    ensures
        decode_all(items) == decode_all(items.take(i)),
    decreases items.len() - i,
{
    if i < items.len() {
        assert(items.drop_last().take(i) =~= items.take(i));
        lemma_decode_all_err(items.drop_last(), i);
    } else {
        assert(items.take(i) =~= items);
    }
}

/// Reads the `raw` payload of `ddev list -j` into projects sorted by name.
pub fn parse_project_list(raw: &Json) -> (r: Result<Vec<Project>, DdevError>)
    ensures
        list_view(r) == parse_list(*raw),
{
    match raw {
        Json::Null => {
            let v: Vec<Project> = Vec::new();
            assert(project_views(v@) =~= Seq::<ProjectView>::empty());
            Ok(v)
        },
        Json::Array(items) => {
            let mut out: Vec<Project> = Vec::new();
            let mut keys: Vec<Vec<char>> = Vec::new();
            let ghost mut fs: Seq<Seq<Seq<char>>> = Seq::empty();
            let mut i: usize = 0;
            proof {
                assert(items@.take(0) =~= Seq::<Json>::empty());
                assert(project_views(out@) =~= sort_by_name(projects_of(fs)));
            }
            while i < items.len()
                invariant
                    *raw == Json::Array(*items),
                    i <= items.len(),
                    decode_all(items@.take(i as int)) == Ok::<
                        Seq<Seq<Seq<char>>>,
                        Seq<char>,
                    >(fs),
                    project_views(out@) == sort_by_name(projects_of(fs)),
                    keys.len() == out.len(),
                    forall|j: int| 0 <= j < keys.len() ==> (#[trigger] keys@[j])@ == sort_key(out@[j]@),
                decreases items.len() - i,
            {
                proof {
                    assert(items@.take(i + 1).drop_last() =~= items@.take(i as int));
                    assert(items@.take(i + 1).last() == items@[i as int]);
                }
                match decode_raw_project(&items[i]) {
                    Err(m) => {
                        proof {
                            lemma_decode_all_err(items@, i + 1);
                        }
                        return Err(DdevError::Parse(m));
                    },
                    Ok(rp) => {
                        let ghost f = raw_fields(rp);
                        let p = project_from_raw(rp);
                        let nm = chars_of(p.name.as_str());
                        let key = lower_chars(&nm);
                        let mut k = out.len();
                        while k > 0 && chars_lt(&key, &keys[k - 1])
                            invariant
                                k <= out.len() == keys.len(),
                                key@ == sort_key(p@),
                                forall|j: int| 0 <= j < keys.len() ==> (#[trigger] keys@[j])@ == sort_key(out@[j]@),
                                forall|j: int| k <= j < out.len() ==> seq_lt(sort_key(p@), sort_key(#[trigger] out@[j]@)),
                            decreases k,
                        {
                            k -= 1;
                        }
                        let ghost before = project_views(out@);
                        proof {
                            assert forall|j: int| k <= j < before.len() implies seq_lt(sort_key(p@), sort_key(#[trigger] before[j])) by {
                                assert(before[j] == out@[j]@);
                            }
                            if k > 0 {
                                assert(before[k - 1] == out@[k - 1]@);
                                assert(keys@[k - 1]@ == sort_key(out@[k - 1]@));
                            }
                            lemma_insert_at(before, p@, k as int);
                        }
                        let ghost pv = p@;
                        let ghost old_keys = keys@;
                        let ghost old_out = out@;
                        out.insert(k, p);
                        keys.insert(k, key);
                        proof {
                            let ghost nfs = fs.push(f);
                            assert(projects_of(nfs).drop_last() =~= projects_of(fs));
                            assert(projects_of(nfs).last() == pv);
                            assert(project_views(out@) =~= before.take(k as int).push(pv) + before.skip(k as int));
                            assert(decode_all(items@.take(i + 1)) == Ok::<Seq<Seq<Seq<char>>>, Seq<char>>(nfs));
                            fs = nfs;
                            assert forall|j: int| 0 <= j < keys.len() implies (#[trigger] keys@[j])@ == sort_key(out@[j]@) by {
                                if j < k {
                                    assert(keys@[j] == old_keys[j] && out@[j] == old_out[j]);
                                } else if j > k {
                                    assert(keys@[j] == old_keys[j - 1] && out@[j] == old_out[j - 1]);
                                }
                            }
                        }
                    },
                }
                i += 1;
            }
            proof {
                assert(items@.take(items.len() as int) =~= items@);
            }
            Ok(out)
        },
        _ => Err(DdevError::Parse("expected `raw` to be an array".to_string())),
    }
}

// ---------- Finding the payload ----------

/// The `raw` member of a parsed document, if it is an object that has one.
pub open spec fn raw_of(doc: Option<Json>) -> Option<Json> {
    match doc {
        Some(j) => json_get(j, "raw"@),
        None => None,
    }
}

/// The `raw` member of the first line, taken without surrounding
/// whitespace and skipped when empty, that parses as a document with one.
pub open spec fn first_raw(lines: Seq<Seq<char>>) -> Option<Json>
    decreases lines.len(),
{
    if lines.len() == 0 {
        None
    } else {
        let t = trim(lines[0]);
        if t.len() > 0 && raw_of(json_parse(t)) is Some {
            raw_of(json_parse(t))
        } else {
            first_raw(lines.drop_first())
        }
    }
}

/// The data payload of `ddev ... -j` output: the `raw` member of the whole
/// output read as one document, or else of the first line-delimited record
/// that has one (lines as `str::lines` splits them; the whitespace trimmed
/// from each line covers a carriage return before the newline).
pub open spec fn extract(stdout: Seq<char>) -> Result<Json, DdevFault> {
    match raw_of(json_parse(trim(stdout))) {
        Some(r) => Ok(r),
        None => match first_raw(split_newlines(stdout)) {
            Some(r) => Ok(r),
            None => Err(DdevFault::Parse("no `raw` payload found in ddev output"@)),
        },
    }
}

/// The `raw` member of a parsed document.
pub fn raw_payload(doc: Option<Json>) -> (r: Option<Json>)
    ensures
        r == raw_of(doc),
{
    match doc {
        Some(Json::Object(entries)) => take_member(entries, &"raw".to_string()),
        _ => None,
    }
}

/// Skipping lines that hold no payload does not change `first_raw`.
proof fn lemma_first_raw_skip(lines: Seq<Seq<char>>, i: int)
    requires
        0 <= i < lines.len(),
        !(trim(lines[i]).len() > 0 && raw_of(json_parse(trim(lines[i]))) is Some),
    ensures
        first_raw(lines.skip(i)) == first_raw(lines.skip(i + 1)),
{
    assert(lines.skip(i).drop_first() =~= lines.skip(i + 1));
    assert(lines.skip(i)[0] == lines[i]);
}

/// Finds the data payload in the output of a `ddev ... -j` command.
pub fn extract_raw(stdout: &str) -> (r: Result<Json, DdevError>)
    ensures
        result_view(r) == extract(stdout@),
{
    let cs = chars_of(stdout);
    let t = trim_chars(&cs);
    let ts = string_from_chars(t.as_slice());
    match raw_payload(parse_json(ts.as_str())) {
        Some(raw) => {
            return Ok(raw);
        },
        None => {},
    }
    let lines = split_lines(&cs);
    let ghost ls = views(lines@);
    let mut i: usize = 0;
    proof {
        assert(ls.skip(0) =~= ls);
    }
    while i < lines.len()
        invariant
            i <= lines.len(),
            ls == views(lines@),
            ls == split_newlines(stdout@),
            raw_of(json_parse(trim(stdout@))) is None,
            first_raw(ls) == first_raw(ls.skip(i as int)),
        decreases lines.len() - i,
    {
        let t = trim_chars(&lines[i]);
        proof {
            assert(ls[i as int] == lines@[i as int]@);
        }
        if t.len() > 0 {
            let ts = string_from_chars(t.as_slice());
            match raw_payload(parse_json(ts.as_str())) {
                Some(raw) => {
                    proof {
                        assert(ls.skip(i as int)[0] == ls[i as int]);
                    }
                    return Ok(raw);
                },
                None => {},
            }
        }
        proof {
            lemma_first_raw_skip(ls, i as int);
        }
        i += 1;
    }
    proof {
        assert(ls.skip(i as int).len() == 0);
    }
    Err(DdevError::Parse("no `raw` payload found in ddev output".to_string()))
}

// ---------- Running `ddev` ----------

/// How a run of an external program ended, as the caller observed it.
#[derive(Debug)]
pub enum CommandOutcome {
    /// The program could not be started; `missing` tells whether the
    /// operating system reported it as not found, and `message` is the
    /// error's text.
    Unstarted { missing: bool, message: String },
    /// The program ran; `status` is the exit status as `ExitStatus`'s
    /// `Display` writes it.
    Exited { success: bool, status: String, stdout: Vec<u8>, stderr: Vec<u8> },
}

/// What a run of `ddev` with `args` gives: its standard output when it
/// succeeded, else the error, whose text for a failed exit is the trimmed
/// standard error or, when that is empty, a line naming the command and
/// its exit status.
pub open spec fn run_result(args: Seq<Seq<char>>, o: CommandOutcome) -> Result<Seq<char>, DdevFault> {
    match o {
        CommandOutcome::Unstarted { missing, message } => if missing {
            Err(DdevFault::NotFound)
        } else {
            Err(DdevFault::Io(message@))
        },
        CommandOutcome::Exited { success, status, stdout, stderr } => if success {
            Ok(utf8_lossy(stdout@))
        } else {
            let e = trim(utf8_lossy(stderr@));
            if e.len() == 0 {
                Err(
                    DdevFault::CommandFailed(
                        "`ddev "@ + join_words(args) + "` exited with "@ + status@,
                    ),
                )
            } else {
                Err(DdevFault::CommandFailed(e))
            }
        },
    }
}

/// Reads the outcome of running `ddev` with `args`.
pub fn run_ddev_result(args: &Vec<String>, outcome: &CommandOutcome) -> (r: Result<String, DdevError>)
    ensures
        match r {
            Ok(s) => run_result(str_views(args@), *outcome) == Ok::<Seq<char>, DdevFault>(s@),
            Err(e) => run_result(str_views(args@), *outcome) == Err::<Seq<char>, DdevFault>(e@),
        },
{
    match outcome {
        CommandOutcome::Unstarted { missing, message } => if *missing {
            Err(DdevError::NotFound)
        } else {
            Err(DdevError::Io(message.clone()))
        },
        CommandOutcome::Exited { success, status, stdout, stderr } => {
            if *success {
                Ok(lossy_string(stdout.as_slice()))
            } else {
                let e = lossy_string(stderr.as_slice());
                let ec = chars_of(e.as_str());
                let et = trim_chars(&ec);
                if et.len() == 0 {
                    let mut m = "`ddev ".to_string();
                    let j = join_with_spaces(args);
                    m.append(j.as_str());
                    m.append("` exited with ");
                    m.append(status.as_str());
                    Err(DdevError::CommandFailed(m))
                } else {
                    Err(DdevError::CommandFailed(string_from_chars(et.as_slice())))
                }
            }
        },
    }
}

/// Texts from literals.
fn words2(a: &str, b: &str) -> (r: Vec<String>)
    ensures
        str_views(r@) == seq![a@, b@],
{
    let mut r: Vec<String> = Vec::new();
    r.push(a.to_string());
    r.push(b.to_string());
    assert(str_views(r@) =~= seq![a@, b@]);
    r
}

/// The arguments of `ddev --version`.
pub open spec fn check_words() -> Seq<Seq<char>> {
    seq!["--version"@]
}

/// The arguments of `ddev list -j`.
pub open spec fn list_words() -> Seq<Seq<char>> {
    seq!["list"@, "-j"@]
}

/// The arguments of `ddev describe <name> -j`.
pub open spec fn describe_words(name: Seq<char>) -> Seq<Seq<char>> {
    seq!["describe"@, name, "-j"@]
}

/// The arguments of a project lifecycle command `ddev <verb> <name>`.
pub open spec fn lifecycle_words(verb: Seq<char>, name: Seq<char>) -> Seq<Seq<char>> {
    seq![verb, name]
}

/// The arguments to run `ddev` with to learn its version.
pub fn check_args() -> (r: Vec<String>)
    ensures
        str_views(r@) == check_words(),
        str_views(r@) == seq!["--version"@],
{
    let mut r: Vec<String> = Vec::new();
    r.push("--version".to_string());
    assert(str_views(r@) =~= check_words());
    r
}

/// The arguments to run `ddev` with to list the projects.
pub fn list_args() -> (r: Vec<String>)
    ensures
        str_views(r@) == list_words(),
        str_views(r@) == seq!["list"@, "-j"@],
{
    words2("list", "-j")
}

/// The arguments to run `ddev` with to describe project `name`.
pub fn describe_args(name: &str) -> (r: Vec<String>)
    ensures
        str_views(r@) == describe_words(name@),
        str_views(r@) == seq!["describe"@, name@, "-j"@],
{
    let mut r: Vec<String> = Vec::new();
    r.push("describe".to_string());
    r.push(name.to_string());
    r.push("-j".to_string());
    assert(str_views(r@) =~= describe_words(name@));
    r
}

/// The arguments to run `ddev` with to start project `name`.
pub fn start_args(name: &str) -> (r: Vec<String>)
    ensures
        str_views(r@) == lifecycle_words("start"@, name@),
        str_views(r@) == seq!["start"@, name@],
{
    words2("start", name)
}

/// The arguments to run `ddev` with to stop project `name`.
pub fn stop_args(name: &str) -> (r: Vec<String>)
    ensures
        str_views(r@) == lifecycle_words("stop"@, name@),
        str_views(r@) == seq!["stop"@, name@],
{
    words2("stop", name)
}

/// The arguments to run `ddev` with to restart project `name`.
pub fn restart_args(name: &str) -> (r: Vec<String>)
    ensures
        str_views(r@) == lifecycle_words("restart"@, name@),
        str_views(r@) == seq!["restart"@, name@],
{
    words2("restart", name)
}

// ---------- Public API ----------

/// Whether the `ddev` binary is available, plus its version string.
#[derive(Debug)]
pub struct DdevAvailability {
    pub available: bool,
    pub version: Option<String>,
    pub message: Option<String>,
}

/// An optional text taken by its view.
pub open spec fn opt_view(o: Option<String>) -> Option<Seq<char>> {
    match o {
        Some(s) => Some(s@),
        None => None,
    }
}

impl View for DdevAvailability {
    type V = (bool, Option<Seq<char>>, Option<Seq<char>>);

    open spec fn view(&self) -> (bool, Option<Seq<char>>, Option<Seq<char>>) {
        (self.available, opt_view(self.version), opt_view(self.message))
    }
}

/// What `ddev --version` tells of the installation: available with the
/// trimmed version text when it ran, else unavailable with a message.
pub open spec fn availability(res: Result<Seq<char>, DdevFault>) -> (bool, Option<Seq<char>>, Option<Seq<char>>) {
    match res {
        Ok(out) => (true, Some(trim(out)), None),
        Err(DdevFault::NotFound) => (false, None, Some("`ddev` was not found on your PATH."@)),
        Err(e) => (false, None, Some(fault_message(e))),
    }
}

/// Reads the outcome of running `ddev` with `check_args()`.
pub fn check(outcome: &CommandOutcome) -> (r: DdevAvailability)
    ensures
        r@ == availability(run_result(check_words(), *outcome)),
{
    let args = check_args();
    match run_ddev_result(&args, outcome) {
        Ok(out) => {
            let cs = chars_of(out.as_str());
            let t = trim_chars(&cs);
            DdevAvailability {
                available: true,
                version: Some(string_from_chars(t.as_slice())),
                message: None,
            }
        },
        Err(DdevError::NotFound) => DdevAvailability {
            available: false,
            version: None,
            message: Some("`ddev` was not found on your PATH.".to_string()),
        },
        Err(e) => DdevAvailability { available: false, version: None, message: Some(e.message()) },
    }
}

/// The project list that a run of `ddev list -j` gives.
pub open spec fn listed(res: Result<Seq<char>, DdevFault>) -> Result<Seq<ProjectView>, DdevFault> {
    match res {
        Err(e) => Err(e),
        Ok(out) => match extract(out) {
            Err(e) => Err(e),
            Ok(raw) => parse_list(raw),
        },
    }
}

/// Reads the outcome of running `ddev` with `list_args()`: all projects
/// with normalized status, sorted by name.
pub fn list_projects(outcome: &CommandOutcome) -> (r: Result<Vec<Project>, DdevError>)
    ensures
        list_view(r) == listed(run_result(list_words(), *outcome)),
{
    let args = list_args();
    let out = match run_ddev_result(&args, outcome) {
        Ok(out) => out,
        Err(e) => {
            return Err(e);
        },
    };
    let raw = match extract_raw(out.as_str()) {
        Ok(raw) => raw,
        Err(e) => {
            return Err(e);
        },
    };
    parse_project_list(&raw)
}

/// The payload that a run of `ddev describe <name> -j` gives.
pub open spec fn described(res: Result<Seq<char>, DdevFault>) -> Result<Json, DdevFault> {
    match res {
        Err(e) => Err(e),
        Ok(out) => extract(out),
    }
}

/// Reads the outcome of running `ddev` with `describe_args(name)`: the
/// full `describe` payload of the project.
pub fn describe_project(name: &str, outcome: &CommandOutcome) -> (r: Result<Json, DdevError>)
    ensures
        result_view(r) == described(run_result(describe_words(name@), *outcome)),
{
    let args = describe_args(name);
    match run_ddev_result(&args, outcome) {
        Ok(out) => extract_raw(out.as_str()),
        Err(e) => Err(e),
    }
}

/// A command's result with its output dropped.
pub open spec fn done(res: Result<Seq<char>, DdevFault>) -> Result<(), DdevFault> {
    match res {
        Ok(_) => Ok(()),
        Err(e) => Err(e),
    }
}

/// Reads the outcome of running `ddev` with the given arguments, keeping
/// only whether it succeeded.
fn lifecycle_result(args: &Vec<String>, outcome: &CommandOutcome) -> (r: Result<(), DdevError>)
    ensures
        result_view(r) == done(run_result(str_views(args@), *outcome)),
{
    match run_ddev_result(args, outcome) {
        Ok(_) => Ok(()),
        Err(e) => Err(e),
    }
}

/// Reads the outcome of running `ddev` with `start_args(name)`.
pub fn start_project(name: &str, outcome: &CommandOutcome) -> (r: Result<(), DdevError>)
    ensures
        result_view(r) == done(run_result(lifecycle_words("start"@, name@), *outcome)),
{
    lifecycle_result(&start_args(name), outcome)
}

/// Reads the outcome of running `ddev` with `stop_args(name)`.
pub fn stop_project(name: &str, outcome: &CommandOutcome) -> (r: Result<(), DdevError>)
    ensures
        result_view(r) == done(run_result(lifecycle_words("stop"@, name@), *outcome)),
{
    lifecycle_result(&stop_args(name), outcome)
}

/// Reads the outcome of running `ddev` with `restart_args(name)`.
pub fn restart_project(name: &str, outcome: &CommandOutcome) -> (r: Result<(), DdevError>)
    ensures
        result_view(r) == done(run_result(lifecycle_words("restart"@, name@), *outcome)),
{
    lifecycle_result(&restart_args(name), outcome)
}

// ---------- Laws of the project list ----------

/// No project comes before an earlier one by `sort_key`.
pub open spec fn sorted_by_name(s: Seq<ProjectView>) -> bool {
    forall|i: int, j: int|
        0 <= i < j < s.len() ==> !seq_lt(sort_key(#[trigger] s[j]), sort_key(#[trigger] s[i]))
}

/// Inserting into a sorted list keeps it sorted and adds exactly the new
/// project.
proof fn lemma_insert_props(s: Seq<ProjectView>, p: ProjectView)
    requires
        sorted_by_name(s),
    ensures
        sorted_by_name(insert_by_name(s, p)),
        insert_by_name(s, p).to_multiset() =~= s.to_multiset().insert(p),
    decreases s.len(),
{
    broadcast use vstd::seq_lib::group_to_multiset_ensures;

    let r = insert_by_name(s, p);
    if s.len() == 0 {
        assert(r =~= Seq::<ProjectView>::empty().push(p));
    } else {
        let t = s.drop_last();
        let last = s.last();
        assert(s =~= t.push(last));
        assert(sorted_by_name(t)) by {
            assert forall|i: int, j: int| 0 <= i < j < t.len() implies !seq_lt(
                sort_key(#[trigger] t[j]),
                sort_key(#[trigger] t[i]),
            ) by {
                assert(t[i] == s[i] && t[j] == s[j]);
            }
        }
        if seq_lt(sort_key(p), sort_key(last)) {
            let u = insert_by_name(t, p);
            lemma_insert_props(t, p);
            assert(r == u.push(last));
            assert(r.to_multiset() =~= s.to_multiset().insert(p));
            assert forall|i: int, j: int| 0 <= i < j < r.len() implies !seq_lt(
                sort_key(#[trigger] r[j]),
                sort_key(#[trigger] r[i]),
            ) by {
                if j < u.len() {
                    assert(r[i] == u[i] && r[j] == u[j]);
                } else {
                    assert(r[j] == last);
                    let x = u[i];
                    assert(r[i] == x);
                    assert(u.contains(x));
                    assert(u.to_multiset().count(x) > 0);
                    if x == p {
                        lemma_lt_asymmetric(sort_key(p), sort_key(last));
                    } else {
                        assert(t.to_multiset().count(x) > 0);
                        assert(t.contains(x));
                        let k = choose|k: int| 0 <= k < t.len() && t[k] == x;
                        assert(s[k] == x);
                        assert(s[s.len() - 1] == last);
                    }
                }
            }
        } else {
            assert(r == s.push(p));
            assert forall|i: int, j: int| 0 <= i < j < r.len() implies !seq_lt(
                sort_key(#[trigger] r[j]),
                sort_key(#[trigger] r[i]),
            ) by {
                if j < s.len() {
                    assert(r[i] == s[i] && r[j] == s[j]);
                } else {
                    assert(r[j] == p);
                    assert(r[i] == s[i]);
                    if i < s.len() - 1 {
                        assert(s[s.len() - 1] == last);
                        lemma_not_lt_transitive(sort_key(s[i]), sort_key(last), sort_key(p));
                    }
                }
            }
        }
    }
}

/// The sorted project list is in order of `sort_key` and holds exactly the
/// projects it was given.
pub proof fn lemma_sort_by_name(s: Seq<ProjectView>)
    ensures
        sorted_by_name(sort_by_name(s)),
        sort_by_name(s).to_multiset() =~= s.to_multiset(),
    decreases s.len(),
{
    broadcast use vstd::seq_lib::group_to_multiset_ensures;

    if s.len() == 0 {
        assert(sort_by_name(s) =~= s);
    } else {
        lemma_sort_by_name(s.drop_last());
        lemma_insert_props(sort_by_name(s.drop_last()), s.last());
        assert(s =~= s.drop_last().push(s.last()));
    }
}

/// A listed project list is sorted case-insensitively by name and holds
/// exactly the projects that the payload's elements describe.
pub proof fn lemma_list_sorted(raw: Json)
    ensures
        parse_list(raw) matches Ok(ps) ==> sorted_by_name(ps),
        raw matches Json::Array(items) ==> (decode_all(items@) matches Ok(fs) ==> parse_list(
            raw,
        ) matches Ok(ps) && ps.to_multiset() =~= projects_of(fs).to_multiset()),
{
    match raw {
        Json::Array(items) => match decode_all(items@) {
            Ok(fs) => lemma_sort_by_name(projects_of(fs)),
            Err(_) => {},
        },
        _ => {},
    }
}

/// A `raw` payload of `null`, or an empty array, is the empty project list
/// and no error.
pub proof fn lemma_no_projects(raw: Json)
    requires
        raw is Null || (raw matches Json::Array(items) && items@.len() == 0),
    ensures
        parse_list(raw) == Ok::<Seq<ProjectView>, DdevFault>(Seq::empty()),
{
    match raw {
        Json::Array(items) => {
            assert(projects_of(Seq::empty()) =~= Seq::<ProjectView>::empty());
        },
        _ => {},
    }
}

/// Reading the output never fails any other way than with a parse error:
/// output without a payload is reported as such.
pub proof fn lemma_extract_errors_are_parse_errors(stdout: Seq<char>)
    ensures
        extract(stdout) matches Err(e) ==> e is Parse,
{
}

/// A member whose key names no field is ignored: the object reads as it
/// would without it.
pub proof fn lemma_unknown_member_ignored(entries: Seq<(String, Json)>, k: String, v: Json)
    requires
        key_index(k@) is None,
    ensures
        decode_members(entries.push((k, v))) == decode_members(entries),
{
    assert(entries.push((k, v)).drop_last() =~= entries);
}

/// A lifecycle command that exits with an error message reports that
/// message, without its surrounding whitespace.
pub proof fn lemma_failure_reports_stderr(
    args: Seq<Seq<char>>,
    status: String,
    stdout: Vec<u8>,
    stderr: Vec<u8>,
)
    requires
        trim(utf8_lossy(stderr@)).len() > 0,
    ensures
        run_result(args, CommandOutcome::Exited { success: false, status, stdout, stderr })
            == Err::<Seq<char>, DdevFault>(DdevFault::CommandFailed(trim(utf8_lossy(stderr@)))),
{
}

/// When `ddev` is not on the `PATH`, the installation is reported as
/// unavailable with a message saying so, whatever was asked.
pub proof fn lemma_missing_ddev(message: String)
    ensures
        availability(run_result(check_words(), CommandOutcome::Unstarted { missing: true, message }))
            == (false, None::<Seq<char>>, Some("`ddev` was not found on your PATH."@)),
{
}

// ---------- Laws of decoding ----------

/// The text of the last member of `entries` named `key` when it holds a
/// string, the empty text when there is none.
pub open spec fn member_text(entries: Seq<(String, Json)>, key: Seq<char>) -> Seq<char>
    decreases entries.len(),
{
    if entries.len() == 0 {
        Seq::empty()
    } else if entries.last().0@ == key {
        match entries.last().1 {
            Json::Str(s) => s@,
            _ => Seq::empty(),
        }
    } else {
        member_text(entries.drop_last(), key)
    }
}

/// The project that an object of `ddev list -j` describes, member by member
/// under DDEV's own key names: `type` gives the kind, `httpurl` the HTTP URL,
/// `httpsurl` the HTTPS URL, and every other key the field of its name.
pub open spec fn project_from_members(entries: Seq<(String, Json)>) -> ProjectView {
    ProjectView {
        name: member_text(entries, "name"@),
        status: status_from(member_text(entries, "status"@)),
        status_desc: member_text(entries, "status_desc"@),
        kind: member_text(entries, "type"@),
        primary_url: member_text(entries, "primary_url"@),
        http_url: member_text(entries, "httpurl"@),
        https_url: member_text(entries, "httpsurl"@),
        mailpit_url: member_text(entries, "mailpit_url"@),
        approot: member_text(entries, "approot"@),
        shortroot: member_text(entries, "shortroot"@),
    }
}

/// Each of DDEV's key names names its own field.
proof fn lemma_key_names()
    ensures
        key_index("name"@) == Some(0int),
        key_index("status"@) == Some(1int),
        key_index("status_desc"@) == Some(2int),
        key_index("type"@) == Some(3int),
        key_index("primary_url"@) == Some(4int),
        key_index("httpurl"@) == Some(5int),
        key_index("httpsurl"@) == Some(6int),
        key_index("mailpit_url"@) == Some(7int),
        key_index("approot"@) == Some(8int),
        key_index("shortroot"@) == Some(9int),
{
    reveal_strlit("name");
    reveal_strlit("status");
    reveal_strlit("status_desc");
    reveal_strlit("type");
    reveal_strlit("primary_url");
    reveal_strlit("httpurl");
    reveal_strlit("httpsurl");
    reveal_strlit("mailpit_url");
    reveal_strlit("approot");
    reveal_strlit("shortroot");
    assert("name"@.len() == 4 && "status"@.len() == 6 && "status_desc"@.len() == 11);
    assert("type"@.len() == 4 && "primary_url"@.len() == 11 && "httpurl"@.len() == 7);
    assert("httpsurl"@.len() == 8 && "mailpit_url"@.len() == 11 && "approot"@.len() == 7);
    assert("shortroot"@.len() == 9);
    assert("type"@[0] != "name"@[0]);
    assert("primary_url"@[0] != "status_desc"@[0]);
    assert("mailpit_url"@[0] != "status_desc"@[0]);
    assert("mailpit_url"@[0] != "primary_url"@[0]);
    assert("approot"@[0] != "httpurl"@[0]);
}

/// The key that field `i` is read from.
spec fn key_of(i: int) -> Seq<char> {
    if i == 0 {
        "name"@
    } else if i == 1 {
        "status"@
    } else if i == 2 {
        "status_desc"@
    } else if i == 3 {
        "type"@
    } else if i == 4 {
        "primary_url"@
    } else if i == 5 {
        "httpurl"@
    } else if i == 6 {
        "httpsurl"@
    } else if i == 7 {
        "mailpit_url"@
    } else if i == 8 {
        "approot"@
    } else {
        "shortroot"@
    }
}

/// Reading an object's members fills every field with the text of the
/// member of that field's key.
proof fn lemma_members_fill_fields(entries: Seq<(String, Json)>)
    ensures
        decode_members(entries) matches Ok(f) ==> f.len() == 10 && forall|i: int|
            0 <= i < 10 ==> #[trigger] f[i] == member_text(entries, key_of(i)),
    decreases entries.len(),
{
    lemma_key_names();
    if entries.len() > 0 {
        let e = entries.drop_last();
        lemma_members_fill_fields(e);
        let (k, v) = entries.last();
        match decode_members(entries) {
            Ok(f) => {
                let f0 = decode_members(e)->Ok_0;
                assert forall|i: int| 0 <= i < 10 implies #[trigger] f[i] == member_text(
                    entries,
                    key_of(i),
                ) by {
                    assert(key_index(key_of(i)) == Some(i));
                    if k@ == key_of(i) {
                        assert(f == f0.update(i, json_str(v)->0));
                    } else {
                        match key_index(k@) {
                            Some(j) => {
                                assert(k@ == key_of(j));
                                assert(j != i);
                            },
                            None => {},
                        }
                        assert(member_text(entries, key_of(i)) == member_text(e, key_of(i)));
                    }
                }
            },
            Err(_) => {},
        }
    } else {
        assert forall|i: int| 0 <= i < 10 implies #[trigger] empty_fields()[i] == member_text(
            entries,
            key_of(i),
        ) by {}
    }
}

/// An object element of the `raw` array reads as the project whose every
/// field is the text of the member with DDEV's key for it.
pub proof fn lemma_object_reads_by_key(entries: Seq<(String, Json)>)
    ensures
        decode_members(entries) matches Ok(f) ==> project_of_fields(f) == project_from_members(
            entries,
        ),
{
    lemma_members_fill_fields(entries);
    if let Ok(f) = decode_members(entries) {
        assert(f[0] == member_text(entries, key_of(0)));
        assert(f[1] == member_text(entries, key_of(1)));
        assert(f[2] == member_text(entries, key_of(2)));
        assert(f[3] == member_text(entries, key_of(3)));
        assert(f[4] == member_text(entries, key_of(4)));
        assert(f[5] == member_text(entries, key_of(5)));
        assert(f[6] == member_text(entries, key_of(6)));
        assert(f[7] == member_text(entries, key_of(7)));
        assert(f[8] == member_text(entries, key_of(8)));
        assert(f[9] == member_text(entries, key_of(9)));
    }
}

/// Every element read without error stands, in order, for one decoded
/// fields list.
proof fn lemma_decode_all_index(items: Seq<Json>)
    ensures
        decode_all(items) matches Ok(fs) ==> fs.len() == items.len() && forall|i: int|
            0 <= i < items.len() ==> decode_raw(#[trigger] items[i]) == Ok::<
                Seq<Seq<char>>,
                Seq<char>,
            >(fs[i]),
    decreases items.len(),
{
    if items.len() > 0 {
        lemma_decode_all_index(items.drop_last());
        if let Ok(fs) = decode_all(items) {
            assert forall|i: int| 0 <= i < items.len() implies decode_raw(#[trigger] items[i])
                == Ok::<Seq<Seq<char>>, Seq<char>>(fs[i]) by {
                if i < items.len() - 1 {
                    assert(items[i] == items.drop_last()[i]);
                }
            }
        }
    }
}

/// Every object of the `raw` array of a listed payload appears in the
/// project list as the project its members describe by key: its HTTP URL is
/// the `httpurl` member, its HTTPS URL the `httpsurl` member, and so on.
pub proof fn lemma_listed_projects_by_key(items: Vec<Json>, i: int)
    requires
        0 <= i < items@.len(),
        items@[i] is Object,
        parse_list(Json::Array(items)) is Ok,
    ensures
        parse_list(Json::Array(items))->Ok_0.contains(
            project_from_members(items@[i]->Object_0@),
        ),
{
    broadcast use vstd::seq_lib::group_to_multiset_ensures;

    let fs = decode_all(items@)->Ok_0;
    lemma_decode_all_index(items@);
    lemma_list_sorted(Json::Array(items));
    let entries = items@[i]->Object_0@;
    lemma_object_reads_by_key(entries);
    let ps = projects_of(fs);
    assert(ps[i] == project_from_members(entries));
    assert(ps.contains(ps[i]));
    let out = parse_list(Json::Array(items))->Ok_0;
    assert(out.to_multiset().count(ps[i]) > 0);
}

/// The arguments used to describe a project are the words `describe`, the
/// project's name, and `-j` for JSON output.
pub proof fn lemma_describe_words(name: Seq<char>)
    ensures
        describe_words(name) == seq!["describe"@, name, "-j"@],
{
}

/// The arguments used to list projects are `list -j`, to check the
/// installation `--version`, and to act on a project the lifecycle verb
/// followed by the project's name.
pub proof fn lemma_command_words(verb: Seq<char>, name: Seq<char>)
    ensures
        list_words() == seq!["list"@, "-j"@],
        check_words() == seq!["--version"@],
        lifecycle_words(verb, name) == seq![verb, name],
{
}

/// A listed project list is in order of the ASCII-lower-cased names: no
/// project's lower-cased name comes before that of a project listed earlier.
pub proof fn lemma_list_order_by_lowercase_name(raw: Json)
    ensures
        parse_list(raw) matches Ok(ps) ==> forall|i: int, j: int|
            0 <= i < j < ps.len() ==> !seq_lt(
                ascii_lower(#[trigger] ps[j].name),
                ascii_lower(#[trigger] ps[i].name),
            ),
{
    lemma_list_sorted(raw);
    if let Ok(ps) = parse_list(raw) {
        assert forall|i: int, j: int| 0 <= i < j < ps.len() implies !seq_lt(
            ascii_lower(#[trigger] ps[j].name),
            ascii_lower(#[trigger] ps[i].name),
        ) by {
            assert(sort_key(ps[j]) == ascii_lower(ps[j].name));
            assert(sort_key(ps[i]) == ascii_lower(ps[i].name));
        }
    }
}

/// A status text means Running, Stopped, Paused or Starting exactly when,
/// trimmed and lower-cased, it is the word `running`, `stopped`, `paused` or
/// `starting`; any other text means Unknown.
pub proof fn lemma_status_words(s: Seq<char>)
    ensures
        (status_from(s) == ProjectStatus::Running) <==> ascii_lower(trim(s)) == "running"@,
        (status_from(s) == ProjectStatus::Stopped) <==> ascii_lower(trim(s)) == "stopped"@,
        (status_from(s) == ProjectStatus::Paused) <==> ascii_lower(trim(s)) == "paused"@,
        (status_from(s) == ProjectStatus::Starting) <==> ascii_lower(trim(s)) == "starting"@,
        (status_from(s) == ProjectStatus::Unknown) <==> (ascii_lower(trim(s)) != "running"@
            && ascii_lower(trim(s)) != "stopped"@ && ascii_lower(trim(s)) != "paused"@
            && ascii_lower(trim(s)) != "starting"@),
{
    reveal_strlit("running");
    reveal_strlit("stopped");
    reveal_strlit("paused");
    reveal_strlit("starting");
    assert("running"@.len() == 7 && "stopped"@.len() == 7);
    assert("paused"@.len() == 6 && "starting"@.len() == 8);
    assert("stopped"@[0] != "running"@[0]);
}

} // verus!
