//! User sessions: their kinds and states, and the reports they are read from.
use vstd::prelude::*;
use crate::monitor::properties::{opt_view, property_in, PropertyText};
use crate::monitor::services::text_or;
use crate::num::{parse_i64, parse_signed64, parse_uint, parse_unsigned};
use crate::text::{
    chars_of, contains, has_prefix, has_sub, lines, lower_text, pieces, push_char, push_chars, split_char, split_lines,
    split_words, starts_with, str_eq, string_of_all, to_lower, trim, trim_chars, views_of, words,
};

verus! {

/// How a user is logged in.
#[derive(Debug, Clone, Copy, PartialEq, Eq, Structural)]
pub enum SessionType {
    TTY,
    X11,
    Wayland,
    SSH,
    Console,
    Unknown,
}

/// Whether a session is in use.
#[derive(Debug, Clone, Copy, PartialEq, Eq, Structural)]
pub enum SessionState {
    Active,
    Online,
    Closing,
    Unknown,
}

/// What keeps track of sessions on the host.
#[derive(Debug, Clone, Copy, PartialEq, Eq, Structural)]
pub enum SessionManager {
    Systemd,
    ConsoleKit,
    Traditional,
    Unknown,
}

/// The session type a lower-case word names.
pub open spec fn session_type_named(s: Seq<char>) -> SessionType {
    if s == "tty"@ {
        SessionType::TTY
    } else if s == "x11"@ {
        SessionType::X11
    } else if s == "wayland"@ {
        SessionType::Wayland
    } else if s == "ssh"@ {
        SessionType::SSH
    } else if s == "console"@ {
        SessionType::Console
    } else {
        SessionType::Unknown
    }
}

/// The session state a lower-case word names.
pub open spec fn session_state_named(s: Seq<char>) -> SessionState {
    if s == "active"@ {
        SessionState::Active
    } else if s == "online"@ {
        SessionState::Online
    } else if s == "closing"@ {
        SessionState::Closing
    } else {
        SessionState::Unknown
    }
}

impl Default for SessionType {
    fn default() -> (r: Self)
        ensures
            r == SessionType::Unknown,
    {
        SessionType::Unknown
    }
}

impl SessionType {
    /// The session type named by `s`, in any letter case.
    pub fn from_state(s: &str) -> (r: SessionType)
        ensures
            r == session_type_named(lower_text(s@)),
    {
        let l = to_lower(s);
        let w = l.as_str();
        if str_eq(w, "tty") {
            SessionType::TTY
        } else if str_eq(w, "x11") {
            SessionType::X11
        } else if str_eq(w, "wayland") {
            SessionType::Wayland
        } else if str_eq(w, "ssh") {
            SessionType::SSH
        } else if str_eq(w, "console") {
            SessionType::Console
        } else {
            SessionType::Unknown
        }
    }
}

impl SessionState {
    /// The session state named by `s`, in any letter case.
    pub fn from_state(s: &str) -> (r: SessionState)
        ensures
            r == session_state_named(lower_text(s@)),
    {
        let l = to_lower(s);
        let w = l.as_str();
        if str_eq(w, "active") {
            SessionState::Active
        } else if str_eq(w, "online") {
            SessionState::Online
        } else if str_eq(w, "closing") {
            SessionState::Closing
        } else {
            SessionState::Unknown
        }
    }
}

impl SessionManager {
    /// The session manager in use: logind if `loginctl` answered, else ConsoleKit if
    /// `ck-list-sessions` did, else the traditional `who`.
    pub fn from_probes(loginctl: bool, consolekit: bool) -> (r: SessionManager)
        ensures
            r == if loginctl {
                SessionManager::Systemd
            } else if consolekit {
                SessionManager::ConsoleKit
            } else {
                SessionManager::Traditional
            },
    {
        if loginctl {
            SessionManager::Systemd
        } else if consolekit {
            SessionManager::ConsoleKit
        } else {
            SessionManager::Traditional
        }
    }
}

/// A row of `loginctl list-sessions`.
#[derive(Debug, Clone)]
pub struct SessionListEntry {
    pub session_id: String,
    pub uid: u32,
    pub user: String,
}

/// The sessions a `loginctl list-sessions --no-legend` listing names: each line
/// trimmed, blank ones skipped, and those with three fields or more read as id, uid
/// (0 where it is not a `u32`) and user.
pub open spec fn session_rows(ls: Seq<Seq<char>>) -> Seq<(Seq<char>, nat, Seq<char>)>
    decreases ls.len(),
{
    if ls.len() == 0 {
        Seq::empty()
    } else {
        let init = session_rows(ls.drop_last());
        let t = trim(ls.last());
        let ws = words(t);
        if t.len() == 0 || ws.len() < 3 {
            init
        } else {
            init.push(
                (
                    ws[0],
                    match parse_unsigned(ws[1], 10, u32::MAX as nat) {
                        Some(n) => n,
                        None => 0,
                    },
                    ws[2],
                ),
            )
        }
    }
}

/// `e` holds the row `row`.
pub open spec fn entry_is(e: SessionListEntry, row: (Seq<char>, nat, Seq<char>)) -> bool {
    e.session_id@ == row.0 && e.uid == row.1 && e.user@ == row.2
}

/// The sessions listed by `loginctl list-sessions --no-legend`.
pub fn session_list_entries(list_output: &str) -> (r: Vec<SessionListEntry>)
    ensures
        r@.len() == session_rows(lines(list_output@)).len(),
        forall|i: int|
            0 <= i < r@.len() ==> entry_is(#[trigger] r@[i], session_rows(lines(list_output@))[i]),
{
    let v = chars_of(list_output);
    let ls = split_lines(&v);
    let ghost all = lines(list_output@);
    let mut r: Vec<SessionListEntry> = Vec::new();
    let mut i: usize = 0;
    while i < ls.len()
        invariant
            i <= ls@.len(),
            views_of(ls@) == all,
            r@.len() == session_rows(all.take(i as int)).len(),
            forall|j: int|
                0 <= j < r@.len() ==> entry_is(#[trigger] r@[j], session_rows(all.take(i as int))[j]),
        decreases ls.len() - i,
    {
        assert(all.take(i + 1).drop_last() == all.take(i as int));
        assert(all.take(i + 1).last() == ls@[i as int]@);
        let t = trim_chars(ls[i].as_slice());
        let ws = split_words(&t);
        if t.len() > 0 && ws.len() >= 3 {
            let uid: u32 = match parse_uint(ws[1].as_slice(), 10, 0xffff_ffff) {
                Some(n) => n as u32,
                None => 0,
            };
            r.push(
                SessionListEntry {
                    session_id: string_of_all(ws[0].as_slice()),
                    uid,
                    user: string_of_all(ws[2].as_slice()),
                },
            );
        }
        i = i + 1;
    }
    assert(all.take(i as int) == all);
    r
}

/// What `loginctl show-session` reports of a session.
#[derive(Debug, Clone)]
pub struct SessionProperties {
    pub session_type: SessionType,
    pub state: SessionState,
    pub tty: Option<String>,
    pub display: Option<String>,
    pub remote_host: Option<String>,
    pub seat: Option<String>,
    pub service: Option<String>,
    /// The login time in microseconds since the epoch, where one is given.
    pub login_micros: Option<i64>,
    /// When the session went idle, in microseconds since the epoch, where given.
    pub idle_since_micros: Option<i64>,
}

/// A text property that counts only when not empty.
pub open spec fn non_empty(o: Option<Seq<char>>) -> Option<Seq<char>> {
    match o {
        Some(t) => if t.len() == 0 {
            None
        } else {
            Some(t)
        },
        None => None,
    }
}

/// A time property in microseconds: none where absent, empty, `0` or not an `i64`.
pub open spec fn micros_of(o: Option<Seq<char>>) -> Option<int> {
    match o {
        Some(t) => if t.len() == 0 || t == "0"@ {
            None
        } else {
            parse_signed64(t)
        },
        None => None,
    }
}

/// `o` holds the number `n`, if any.
pub open spec fn opt_i64_is(o: Option<i64>, n: Option<int>) -> bool {
    match (o, n) {
        (Some(a), Some(b)) => a == b,
        (None, None) => true,
        _ => false,
    }
}

/// `p` is what the `loginctl show-session` listing `ls` says.
pub open spec fn session_properties_match(p: SessionProperties, ls: Seq<Seq<char>>) -> bool {
    &&& p.session_type == session_type_named(lower_text(text_or(property_in(ls, "Type"@), "unknown"@)))
    &&& p.state == session_state_named(lower_text(text_or(property_in(ls, "State"@), "unknown"@)))
    &&& opt_view(p.tty) == non_empty(property_in(ls, "TTY"@))
    &&& opt_view(p.display) == non_empty(property_in(ls, "Display"@))
    &&& opt_view(p.remote_host) == non_empty(property_in(ls, "RemoteHost"@))
    &&& opt_view(p.seat) == non_empty(property_in(ls, "Seat"@))
    &&& opt_view(p.service) == non_empty(property_in(ls, "Service"@))
    &&& opt_i64_is(p.login_micros, micros_of(property_in(ls, "Timestamp"@)))
    &&& opt_i64_is(p.idle_since_micros, micros_of(property_in(ls, "IdleSinceHint"@)))
}

/// A text property, kept only when not empty.
fn non_empty_value(o: Option<String>) -> (r: Option<String>)
    ensures
        opt_view(r) == non_empty(opt_view(o)),
{
    match o {
        Some(t) => if t.as_str().is_empty() {
            None
        } else {
            Some(t)
        },
        None => None,
    }
}

/// A time property in microseconds (see `micros_of`).
fn micros_value(o: Option<String>) -> (r: Option<i64>)
    ensures
        opt_i64_is(r, micros_of(opt_view(o))),
{
    match o {
        Some(t) => if t.as_str().is_empty() || str_eq(t.as_str(), "0") {
            None
        } else {
            let v = chars_of(t.as_str());
            parse_i64(&v)
        },
        None => None,
    }
}

/// The properties of a session from the text `loginctl show-session` printed.
pub fn session_properties_from(show_output: &str) -> (r: SessionProperties)
    ensures
        session_properties_match(r, lines(show_output@)),
{
    let props = PropertyText::from_text(show_output);
    let session_type = match props.get("Type") {
        Some(t) => SessionType::from_state(t.as_str()),
        None => SessionType::from_state("unknown"),
    };
    let state = match props.get("State") {
        Some(t) => SessionState::from_state(t.as_str()),
        None => SessionState::from_state("unknown"),
    };
    SessionProperties {
        session_type,
        state,
        tty: non_empty_value(props.get("TTY")),
        display: non_empty_value(props.get("Display")),
        remote_host: non_empty_value(props.get("RemoteHost")),
        seat: non_empty_value(props.get("Seat")),
        service: non_empty_value(props.get("Service")),
        login_micros: micros_value(props.get("Timestamp")),
        idle_since_micros: micros_value(props.get("IdleSinceHint")),
    }
}

/// A line of `who -H -u`: the user, the terminal, and the login date and time.
#[derive(Debug, Clone)]
pub struct WhoEntry {
    pub user: String,
    pub tty: String,
    /// The third and fourth fields joined by a space (`%Y-%m-%d %H:%M`).
    pub login_text: String,
}

/// The session type a terminal name shows: `pts/` for remote logins, `tty` for local
/// consoles.
pub open spec fn tty_session_type(tty: Seq<char>) -> SessionType {
    if starts_with(tty, "pts/"@) {
        SessionType::SSH
    } else if starts_with(tty, "tty"@) {
        SessionType::TTY
    } else {
        SessionType::Unknown
    }
}

/// The session type a terminal name shows (see `tty_session_type`).
pub fn session_type_for_tty(tty: &str) -> (r: SessionType)
    ensures
        r == tty_session_type(tty@),
{
    proof {
        reveal_strlit("pts/");
        reveal_strlit("tty");
    }
    let v = chars_of(tty);
    let pts = chars_of("pts/");
    let t = chars_of("tty");
    if has_prefix(&v, &pts) {
        SessionType::SSH
    } else if has_prefix(&v, &t) {
        SessionType::TTY
    } else {
        SessionType::Unknown
    }
}

/// Reads a line of `who -H -u`: at least five fields, of which the first four are
/// user, terminal, date and time.
pub fn parse_who_output(line: &str) -> (r: Option<WhoEntry>)
    ensures
        match r {
            Some(e) => {
                let ws = words(line@);
                &&& ws.len() >= 5
                &&& e.user@ == ws[0]
                &&& e.tty@ == ws[1]
                &&& e.login_text@ == ws[2] + seq![' '] + ws[3]
            },
            None => words(line@).len() < 5,
        },
{
    let v = chars_of(line);
    let ws = split_words(&v);
    if ws.len() < 5 {
        return None;
    }
    let mut login_text = string_of_all(ws[2].as_slice());
    push_char(&mut login_text, ' ');
    let third = string_of_all(ws[3].as_slice());
    push_chars(&mut login_text, third.as_str());
    Some(
        WhoEntry {
            user: string_of_all(ws[0].as_slice()),
            tty: string_of_all(ws[1].as_slice()),
            login_text,
        },
    )
}

/// An account from the password database.
#[derive(Debug, Clone)]
pub struct UserInfo {
    pub username: String,
    pub uid: u32,
    pub gid: u32,
    pub home_dir: String,
    pub shell: String,
}

/// Reads a `passwd` entry: at least seven `:`-separated fields, of which the third and
/// fourth must be `u32` numbers.
pub fn parse_passwd_entry(entry: &str) -> (r: Option<UserInfo>)
    ensures
        match r {
            Some(u) => {
                let f = pieces(entry@, ':');
                &&& f.len() >= 7
                &&& u.username@ == f[0]
                &&& parse_unsigned(f[2], 10, u32::MAX as nat) == Some(u.uid as nat)
                &&& parse_unsigned(f[3], 10, u32::MAX as nat) == Some(u.gid as nat)
                &&& u.home_dir@ == f[5]
                &&& u.shell@ == f[6]
            },
            None => {
                let f = pieces(entry@, ':');
                ||| f.len() < 7
                ||| parse_unsigned(f[2], 10, u32::MAX as nat) is None
                ||| parse_unsigned(f[3], 10, u32::MAX as nat) is None
            },
        },
{
    let v = chars_of(entry);
    let f = split_char(&v, ':');
    if f.len() < 7 {
        return None;
    }
    let uid = match parse_uint(f[2].as_slice(), 10, 0xffff_ffff) {
        Some(n) => n as u32,
        None => {
            return None;
        },
    };
    let gid = match parse_uint(f[3].as_slice(), 10, 0xffff_ffff) {
        Some(n) => n as u32,
        None => {
            return None;
        },
    };
    Some(
        UserInfo {
            username: string_of_all(f[0].as_slice()),
            uid,
            gid,
            home_dir: string_of_all(f[5].as_slice()),
            shell: string_of_all(f[6].as_slice()),
        },
    )
}

/// A log line reports a failed login.
pub open spec fn failed_login_line(l: Seq<char>) -> bool {
    contains(l, "Failed password"@) || contains(l, "authentication failure"@) || contains(
        l,
        "Invalid user"@,
    )
}

/// How many of `ls` report a failed login.
pub open spec fn failed_login_count(ls: Seq<Seq<char>>) -> nat
    decreases ls.len(),
{
    if ls.len() == 0 {
        0
    } else {
        failed_login_count(ls.drop_last()) + if failed_login_line(ls.last()) {
            1nat
        } else {
            0nat
        }
    }
}

/// How many lines of an authentication log report a failed login.
pub fn count_failed_logins(log_content: &str) -> (r: usize)
    ensures
        r == failed_login_count(lines(log_content@)),
{
    let v = chars_of(log_content);
    let ls = split_lines(&v);
    let ghost all = lines(log_content@);
    let p1: [char; 15] = ['F', 'a', 'i', 'l', 'e', 'd', ' ', 'p', 'a', 's', 's', 'w', 'o', 'r', 'd'];
    let p2: [char; 22] = [
        'a', 'u', 't', 'h', 'e', 'n', 't', 'i', 'c', 'a', 't', 'i', 'o', 'n', ' ', 'f', 'a', 'i',
        'l', 'u', 'r', 'e',
    ];
    let p3: [char; 12] = ['I', 'n', 'v', 'a', 'l', 'i', 'd', ' ', 'u', 's', 'e', 'r'];
    proof {
        reveal_strlit("Failed password");
        reveal_strlit("authentication failure");
        reveal_strlit("Invalid user");
    }
    assert(p1@ == "Failed password"@);
    assert(p2@ == "authentication failure"@);
    assert(p3@ == "Invalid user"@);
    let mut n: usize = 0;
    let mut i: usize = 0;
    while i < ls.len()
        invariant
            i <= ls@.len(),
            views_of(ls@) == all,
            p1@ == "Failed password"@,
            p2@ == "authentication failure"@,
            p3@ == "Invalid user"@,
            n == failed_login_count(all.take(i as int)),
            n <= i,
        decreases ls.len() - i,
    {
        assert(all.take(i + 1).drop_last() == all.take(i as int));
        assert(all.take(i + 1).last() == ls@[i as int]@);
        let l = ls[i].as_slice();
        if has_sub(l, &p1) || has_sub(l, &p2) || has_sub(l, &p3) {
            n = n + 1;
        }
        i = i + 1;
    }
    assert(all.take(i as int) == all);
    n
}

/// The counts of a list of sessions.
#[derive(Debug, Clone, Copy, PartialEq, Eq, Structural)]
pub struct SessionCounts {
    pub total_sessions: usize,
    pub active_sessions: usize,
    pub unique_users: usize,
    pub ssh_sessions: usize,
    pub local_sessions: usize,
    pub total_memory_usage: u64,
}

/// How many of `s` are active.
pub open spec fn count_active(s: Seq<SessionState>) -> nat
    decreases s.len(),
{
    if s.len() == 0 {
        0
    } else {
        count_active(s.drop_last()) + if s.last() == SessionState::Active {
            1nat
        } else {
            0nat
        }
    }
}

/// How many of `s` are remote (SSH) sessions.
pub open spec fn count_ssh(s: Seq<SessionType>) -> nat
    decreases s.len(),
{
    if s.len() == 0 {
        0
    } else {
        count_ssh(s.drop_last()) + if s.last() == SessionType::SSH {
            1nat
        } else {
            0nat
        }
    }
}

/// The counts of the sessions whose states, kinds, users and memory use (in bytes) are
/// `states[i]`, `types[i]`, `users[i]` and `memory[i]`: how many there are and are
/// active, how many different users hold them, how many are SSH sessions and how many
/// are not, and the memory they use together.
pub fn session_counts(states: &[SessionState], types: &[SessionType], users: &Vec<String>, memory: &[u64]) -> (r: SessionCounts)
    requires
        types@.len() == states@.len(),
        users@.len() == states@.len(),
        memory@.len() == states@.len(),
        crate::monitor::security::sum_of(memory@) <= u64::MAX,
    ensures
        r.total_sessions == states@.len(),
        r.active_sessions == count_active(states@),
        r.unique_users == crate::text::dedup(crate::text::str_views(users@)).len(),
        r.ssh_sessions == count_ssh(types@),
        r.local_sessions == states@.len() - count_ssh(types@),
        r.total_memory_usage == crate::monitor::security::sum_of(memory@),
{
    let n = states.len();
    let mut active: usize = 0;
    let mut ssh: usize = 0;
    let mut total: u64 = 0;
    let mut seen: Vec<String> = Vec::new();
    let mut i: usize = 0;
    while i < n
        invariant
            n == states@.len() == types@.len() == users@.len() == memory@.len(),
            i <= n,
            active == count_active(states@.take(i as int)),
            ssh == count_ssh(types@.take(i as int)),
            active <= i && ssh <= i,
            total == crate::monitor::security::sum_of(memory@.take(i as int)),
            crate::monitor::security::sum_of(memory@) <= u64::MAX,
            crate::text::str_views(seen@) == crate::text::dedup(crate::text::str_views(users@).take(i as int)),
        decreases n - i,
    {
        assert(states@.take(i + 1).drop_last() == states@.take(i as int));
        assert(types@.take(i + 1).drop_last() == types@.take(i as int));
        assert(memory@.take(i + 1).drop_last() == memory@.take(i as int));
        let ghost uv = crate::text::str_views(users@);
        assert(uv.take(i + 1).drop_last() == uv.take(i as int));
        assert(uv.take(i + 1).last() == users@[i as int]@);
        proof {
            crate::monitor::security::lemma_sum_prefix_le(memory@, i + 1);
        }
        if states[i] == SessionState::Active {
            active = active + 1;
        }
        if types[i] == SessionType::SSH {
            ssh = ssh + 1;
        }
        total = total + memory[i];
        crate::text::push_unique(&mut seen, users[i].clone());
        i = i + 1;
    }
    assert(states@.take(n as int) == states@);
    assert(types@.take(n as int) == types@);
    assert(memory@.take(n as int) == memory@);
    assert(crate::text::str_views(users@).take(n as int) == crate::text::str_views(users@));
    proof {
        assert(crate::text::str_views(seen@).len() == seen@.len());
    }
    SessionCounts {
        total_sessions: n,
        active_sessions: active,
        unique_users: seen.len(),
        ssh_sessions: ssh,
        local_sessions: n - ssh,
        total_memory_usage: total,
    }
}

} // verus!
