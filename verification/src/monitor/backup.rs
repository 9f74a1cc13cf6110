//! Backup jobs and storage: how jobs are found in system reports and which alerts they raise.
use vstd::prelude::*;
use crate::monitor::network::rows_after_header;
use crate::num::{parse_uint, parse_unsigned};
use crate::text::{
    chars_of, contains, has_sub, lines, push_char, push_chars, split_lines, split_words, str_views,
    string_of_all, views_of, words,
};

verus! {

/// The kind of a backup.
#[derive(Debug, Clone, Copy, PartialEq, Eq, Structural)]
pub enum BackupType {
    Full,
    Incremental,
    Differential,
    Snapshot,
    Database,
    VMware,
    HyperV,
    FileSync,
}

/// How often a backup runs.
#[derive(Debug, Clone, Copy, PartialEq, Eq, Structural)]
pub enum BackupFrequency {
    Hourly,
    Daily,
    Weekly,
    Monthly,
    OnDemand,
}

/// Where a backup job stands.
#[derive(Debug, Clone, Copy, PartialEq, Eq, Structural)]
pub enum BackupStatus {
    Running,
    Completed,
    Failed,
    Cancelled,
    Scheduled,
    Paused,
}

/// What kind of storage holds backups.
#[derive(Debug, Clone, Copy, PartialEq, Eq, Structural)]
pub enum StorageType {
    LocalDisk,
    NetworkShare,
    CloudStorage,
    TapeLibrary,
    NAS,
    SAN,
    S3Compatible,
    FTP,
    SFTP,
}

/// What a backup alert is about.
#[derive(Debug, Clone, Copy, PartialEq, Eq, Structural)]
pub enum BackupAlertType {
    JobFailed,
    JobMissed,
    StorageFull,
    StorageOffline,
    IntegrityCheckFailed,
    PerformanceDegraded,
    RetentionViolation,
    EncryptionIssue,
    NetworkIssue,
}

/// How serious a backup alert is.
#[derive(Debug, Clone, Copy, PartialEq, Eq, Structural)]
pub enum BackupAlertSeverity {
    Info,
    Warning,
    Error,
    Critical,
}

/// Where a restore stands.
#[derive(Debug, Clone, Copy, PartialEq, Eq, Structural)]
pub enum RestoreStatus {
    Preparing,
    InProgress,
    Completed,
    Failed,
    Cancelled,
}

/// When a backup runs.
#[derive(Debug, Clone)]
pub struct BackupSchedule {
    pub frequency: BackupFrequency,
    /// `HH:MM`.
    pub time_of_day: Option<String>,
    /// 0 to 6, Sunday first.
    pub days_of_week: Vec<u8>,
    pub enabled: bool,
}

/// How long backups are kept.
#[derive(Debug, Clone, Copy, PartialEq, Eq, Structural)]
pub struct RetentionPolicy {
    pub keep_daily: u32,
    pub keep_weekly: u32,
    pub keep_monthly: u32,
    pub keep_yearly: u32,
}

/// The schedule read from a crontab line: daily at 02:00 on weekdays (the line's own
/// fields are not read).
pub fn parse_cron_schedule(cron_line: &str) -> (r: BackupSchedule)
    ensures
        r.frequency == BackupFrequency::Daily,
        r.time_of_day matches Some(t) && t@ == "02:00"@,
        r.days_of_week@ == seq![1u8, 2, 3, 4, 5],
        r.enabled,
{
    let mut days: Vec<u8> = Vec::new();
    days.push(1);
    days.push(2);
    days.push(3);
    days.push(4);
    days.push(5);
    assert(days@ =~= seq![1u8, 2, 3, 4, 5]);
    BackupSchedule {
        frequency: BackupFrequency::Daily,
        time_of_day: Some("02:00".to_owned()),
        days_of_week: days,
        enabled: true,
    }
}

/// The total, used and available bytes `df -B 1` reports: those of the first row after
/// the header with at least four fields whose second to fourth are all numbers.
pub open spec fn df_figures(rows: Seq<Seq<char>>) -> Option<(nat, nat, nat)>
    decreases rows.len(),
{
    if rows.len() == 0 {
        None
    } else {
        let w = words(rows[0]);
        if w.len() >= 4 && parse_unsigned(w[1], 10, u64::MAX as nat) is Some && parse_unsigned(
            w[2],
            10,
            u64::MAX as nat,
        ) is Some && parse_unsigned(w[3], 10, u64::MAX as nat) is Some {
            Some(
                (
                    parse_unsigned(w[1], 10, u64::MAX as nat)->Some_0,
                    parse_unsigned(w[2], 10, u64::MAX as nat)->Some_0,
                    parse_unsigned(w[3], 10, u64::MAX as nat)->Some_0,
                ),
            )
        } else {
            df_figures(rows.drop_first())
        }
    }
}

/// The total, used and available bytes of a `df -B 1` report (see `df_figures`).
pub fn parse_df_output(output: &str) -> (r: Option<(u64, u64, u64)>)
    ensures
        match df_figures(rows_after_header(lines(output@))) {
            Some((t, u, a)) => r == Some((t as u64, u as u64, a as u64)),
            None => r is None,
        },
{
    let v = chars_of(output);
    let ls = split_lines(&v);
    let ghost rows = rows_after_header(lines(output@));
    if ls.len() == 0 {
        return None;
    }
    let mut i: usize = 1;
    assert(rows.skip(0) == rows);
    while i < ls.len()
        invariant
            1 <= i <= ls@.len(),
            views_of(ls@) == lines(output@),
            rows == rows_after_header(lines(output@)),
            df_figures(rows) == df_figures(rows.skip(i - 1)),
        decreases ls.len() - i,
    {
        assert(rows.skip(i - 1)[0] == ls@[i as int]@);
        assert(rows.skip(i - 1).drop_first() == rows.skip(i as int));
        let w = split_words(&ls[i]);
        if w.len() >= 4 {
            assert(views_of(w@)[1] == w@[1]@);
            assert(views_of(w@)[2] == w@[2]@);
            assert(views_of(w@)[3] == w@[3]@);
            let total = parse_uint(&w[1], 10, u64::MAX);
            let used = parse_uint(&w[2], 10, u64::MAX);
            let avail = parse_uint(&w[3], 10, u64::MAX);
            match (total, used, avail) {
                (Some(t), Some(u), Some(a)) => {
                    return Some((t, u, a));
                },
                _ => {},
            }
        }
        i = i + 1;
    }
    assert(rows.skip(i - 1) =~= Seq::<Seq<char>>::empty());
    None
}

/// Whether `needle` occurs in `s`.
fn mentions(s: &Vec<char>, needle: &str) -> (r: bool)
    ensures
        r == contains(s@, needle@),
{
    let n = chars_of(needle);
    has_sub(s, &n)
}

/// The job ids of the rsync processes a `ps aux` listing shows: for each line naming
/// `rsync` but not `grep`, with more than ten fields, `rsync_` and its pid (second
/// field), in order.
pub open spec fn rsync_ids(ls: Seq<Seq<char>>) -> Seq<Seq<char>>
    decreases ls.len(),
{
    if ls.len() == 0 {
        Seq::empty()
    } else {
        let init = rsync_ids(ls.drop_last());
        let l = ls.last();
        if contains(l, "rsync"@) && !contains(l, "grep"@) && words(l).len() > 10 {
            init.push("rsync_"@ + words(l)[1])
        } else {
            init
        }
    }
}

/// The job ids of the rsync processes in a `ps aux` listing (see `rsync_ids`).
pub fn rsync_job_ids(ps_output: &str) -> (r: Vec<String>)
    ensures
        str_views(r@) == rsync_ids(lines(ps_output@)),
{
    let v = chars_of(ps_output);
    let ls = split_lines(&v);
    let ghost all = lines(ps_output@);
    let mut r: Vec<String> = Vec::new();
    let mut i: usize = 0;
    while i < ls.len()
        invariant
            i <= ls@.len(),
            views_of(ls@) == all,
            str_views(r@) == rsync_ids(all.take(i as int)),
        decreases ls.len() - i,
    {
        assert(all.take(i + 1).drop_last() == all.take(i as int));
        assert(all.take(i + 1).last() == ls@[i as int]@);
        let l = &ls[i];
        let w = split_words(l);
        if mentions(l, "rsync") && !mentions(l, "grep") && w.len() > 10 {
            assert(views_of(w@)[1] == w@[1]@);
            let mut id = "rsync_".to_owned();
            let pid = string_of_all(&w[1]);
            push_chars(&mut id, pid.as_str());
            proof {
                crate::text::lemma_str_views_push(r@, id);
            }
            r.push(id);
        }
        i = i + 1;
    }
    assert(all.take(i as int) == all);
    r
}

/// The positions of the crontab lines that look like backups: naming `backup`,
/// `rsync` or `tar`.
pub open spec fn cron_backup_positions(ls: Seq<Seq<char>>) -> Seq<int>
    decreases ls.len(),
{
    if ls.len() == 0 {
        Seq::empty()
    } else {
        let init = cron_backup_positions(ls.drop_last());
        let l = ls.last();
        if contains(l, "backup"@) || contains(l, "rsync"@) || contains(l, "tar"@) {
            init.push(ls.len() - 1)
        } else {
            init
        }
    }
}

/// The positions of the backup lines of a crontab (see `cron_backup_positions`).
pub fn cron_backup_lines(crontab: &str) -> (r: Vec<usize>)
    ensures
        r@.len() == cron_backup_positions(lines(crontab@)).len(),
        forall|k: int| 0 <= k < r@.len() ==> #[trigger] r@[k] as int == cron_backup_positions(lines(crontab@))[k],
{
    let v = chars_of(crontab);
    let ls = split_lines(&v);
    let ghost all = lines(crontab@);
    let mut r: Vec<usize> = Vec::new();
    let mut i: usize = 0;
    while i < ls.len()
        invariant
            i <= ls@.len(),
            views_of(ls@) == all,
            r@.len() == cron_backup_positions(all.take(i as int)).len(),
            forall|k: int| 0 <= k < r@.len() ==> #[trigger] r@[k] as int == cron_backup_positions(all.take(i as int))[k],
        decreases ls.len() - i,
    {
        assert(all.take(i + 1).drop_last() == all.take(i as int));
        assert(all.take(i + 1).last() == ls@[i as int]@);
        let l = &ls[i];
        if mentions(l, "backup") || mentions(l, "rsync") || mentions(l, "tar") {
            r.push(i);
        }
        i = i + 1;
    }
    assert(all.take(i as int) == all);
    r
}

/// The backup services a `systemctl list-units` listing shows: for each line naming
/// `backup` and `.service` with at least one field, its first field and whether the line
/// names `active` anywhere.
pub open spec fn backup_services(ls: Seq<Seq<char>>) -> Seq<(Seq<char>, bool)>
    decreases ls.len(),
{
    if ls.len() == 0 {
        Seq::empty()
    } else {
        let init = backup_services(ls.drop_last());
        let l = ls.last();
        if contains(l, "backup"@) && contains(l, ".service"@) && words(l).len() > 0 {
            init.push((words(l)[0], contains(l, "active"@)))
        } else {
            init
        }
    }
}

/// The texts and flags of a list of service entries.
pub open spec fn service_views(v: Seq<(String, bool)>) -> Seq<(Seq<char>, bool)> {
    Seq::new(v.len(), |i: int| (v[i].0@, v[i].1))
}

/// The backup services of a `systemctl list-units` listing (see `backup_services`).
pub fn systemd_backup_services(output: &str) -> (r: Vec<(String, bool)>)
    ensures
        service_views(r@) == backup_services(lines(output@)),
{
    let v = chars_of(output);
    let ls = split_lines(&v);
    let ghost all = lines(output@);
    let mut r: Vec<(String, bool)> = Vec::new();
    let mut i: usize = 0;
    while i < ls.len()
        invariant
            i <= ls@.len(),
            views_of(ls@) == all,
            service_views(r@) == backup_services(all.take(i as int)),
        decreases ls.len() - i,
    {
        assert(all.take(i + 1).drop_last() == all.take(i as int));
        assert(all.take(i + 1).last() == ls@[i as int]@);
        let l = &ls[i];
        let w = split_words(l);
        if mentions(l, "backup") && mentions(l, ".service") && w.len() > 0 {
            assert(views_of(w@)[0] == w@[0]@);
            let name = string_of_all(&w[0]);
            let active = mentions(l, "active");
            let ghost before = service_views(r@);
            let ghost nv = name@;
            r.push((name, active));
            assert(service_views(r@) =~= before.push((nv, active)));
        }
        i = i + 1;
    }
    assert(all.take(i as int) == all);
    r
}

/// `path` with each `/` turned into `_`.
pub open spec fn underscored(path: Seq<char>) -> Seq<char> {
    Seq::new(path.len(), |i: int| if path[i] == '/' { '_' } else { path[i] })
}

/// The id of a storage location: `storage_` and its path with `/` turned into `_`.
pub fn storage_location_id(path: &str) -> (r: String)
    ensures
        r@ == "storage_"@ + underscored(path@),
{
    let v = chars_of(path);
    let mut r = "storage_".to_owned();
    let ghost head = r@;
    let mut i: usize = 0;
    while i < v.len()
        invariant
            i <= v@.len(),
            v@ == path@,
            r@ == head + underscored(path@).take(i as int),
        decreases v.len() - i,
    {
        let c = if v[i] == '/' {
            '_'
        } else {
            v[i]
        };
        push_char(&mut r, c);
        assert(underscored(path@).take(i + 1) == underscored(path@).take(i as int).push(c));
        i = i + 1;
    }
    assert(underscored(path@).take(i as int) == underscored(path@));
    r
}

/// A file that a storage location holds as a recovery point: its name mentions `backup`
/// or ends in `.tar.gz`, `.zip` or `.bak`.
pub open spec fn backup_file_name(name: Seq<char>) -> bool {
    contains(name, "backup"@) || crate::text::ends_with(name, ".tar.gz"@) || crate::text::ends_with(name, ".zip"@)
        || crate::text::ends_with(name, ".bak"@)
}

/// Whether a file found in a storage location is a recovery point (see
/// `backup_file_name`).
pub fn is_backup_file(name: &str) -> (r: bool)
    ensures
        r == backup_file_name(name@),
{
    let v = chars_of(name);
    let tgz = chars_of(".tar.gz");
    let zip = chars_of(".zip");
    let bak = chars_of(".bak");
    mentions(&v, "backup") || crate::text::has_suffix(&v, &tgz) || crate::text::has_suffix(&v, &zip)
        || crate::text::has_suffix(&v, &bak)
}

/// The id of the recovery point `file_name` found in the storage location
/// `location_id`: `rp_`, the location, `_` and the file name.
pub fn recovery_point_id(location_id: &str, file_name: &str) -> (r: String)
    ensures
        r@ == "rp_"@ + location_id@ + "_"@ + file_name@,
{
    let mut r = "rp_".to_owned();
    push_chars(&mut r, location_id);
    push_chars(&mut r, "_");
    push_chars(&mut r, file_name);
    r
}

/// An alert as raised: its id, kind, severity, subject and message.
#[derive(Debug, Clone)]
pub struct BackupAlertInfo {
    pub alert_id: String,
    pub alert_type: BackupAlertType,
    pub severity: BackupAlertSeverity,
    pub job_id: Option<String>,
    pub storage_id: Option<String>,
    pub message: String,
}

/// `a` is the alert with these parts.
pub open spec fn alert_is(
    a: BackupAlertInfo,
    id: Seq<char>,
    t: BackupAlertType,
    s: BackupAlertSeverity,
    job: Option<Seq<char>>,
    storage: Option<Seq<char>>,
    message: Seq<char>,
) -> bool {
    &&& a.alert_id@ == id
    &&& a.alert_type == t
    &&& a.severity == s
    &&& match (a.job_id, job) {
        (Some(x), Some(y)) => x@ == y,
        (None, None) => true,
        _ => false,
    }
    &&& match (a.storage_id, storage) {
        (Some(x), Some(y)) => x@ == y,
        (None, None) => true,
        _ => false,
    }
    &&& a.message@ == message
}

/// The alerts a job raises: an error when it failed, then a warning when it missed its
/// scheduled run (`missed`: its next run is more than an hour past).
pub fn job_alerts(job_id: &str, name: &str, status: BackupStatus, missed: bool) -> (r: Vec<
    BackupAlertInfo,
>)
    ensures
        r@.len() == (if status == BackupStatus::Failed { 1int } else { 0int }) + (if missed {
            1int
        } else {
            0int
        }),
        status == BackupStatus::Failed ==> alert_is(
            r@[0],
            "alert_job_failed_"@ + job_id@,
            BackupAlertType::JobFailed,
            BackupAlertSeverity::Error,
            Some(job_id@),
            None,
            "Backup job '"@ + name@ + "' failed"@,
        ),
        missed ==> alert_is(
            r@[r@.len() - 1],
            "alert_job_missed_"@ + job_id@,
            BackupAlertType::JobMissed,
            BackupAlertSeverity::Warning,
            Some(job_id@),
            None,
            "Backup job '"@ + name@ + "' missed scheduled run"@,
        ),
{
    let mut r: Vec<BackupAlertInfo> = Vec::new();
    if status == BackupStatus::Failed {
        let mut id = "alert_job_failed_".to_owned();
        push_chars(&mut id, job_id);
        let mut message = "Backup job '".to_owned();
        push_chars(&mut message, name);
        push_chars(&mut message, "' failed");
        r.push(
            BackupAlertInfo {
                alert_id: id,
                alert_type: BackupAlertType::JobFailed,
                severity: BackupAlertSeverity::Error,
                job_id: Some(job_id.to_owned()),
                storage_id: None,
                message,
            },
        );
    }
    if missed {
        let mut id = "alert_job_missed_".to_owned();
        push_chars(&mut id, job_id);
        let mut message = "Backup job '".to_owned();
        push_chars(&mut message, name);
        push_chars(&mut message, "' missed scheduled run");
        r.push(
            BackupAlertInfo {
                alert_id: id,
                alert_type: BackupAlertType::JobMissed,
                severity: BackupAlertSeverity::Warning,
                job_id: Some(job_id.to_owned()),
                storage_id: None,
                message,
            },
        );
    }
    r
}

/// The alert an unreachable storage location raises.
pub fn storage_offline_alert(location_id: &str, name: &str) -> (r: BackupAlertInfo)
    ensures
        alert_is(
            r,
            "alert_storage_offline_"@ + location_id@,
            BackupAlertType::StorageOffline,
            BackupAlertSeverity::Critical,
            None,
            Some(location_id@),
            "Storage '"@ + name@ + "' is not accessible"@,
        ),
{
    let mut id = "alert_storage_offline_".to_owned();
    push_chars(&mut id, location_id);
    let mut message = "Storage '".to_owned();
    push_chars(&mut message, name);
    push_chars(&mut message, "' is not accessible");
    BackupAlertInfo {
        alert_id: id,
        alert_type: BackupAlertType::StorageOffline,
        severity: BackupAlertSeverity::Critical,
        job_id: None,
        storage_id: Some(location_id.to_owned()),
        message,
    }
}

/// The alert a nearly full storage location raises; `percent` is its use as shown, to
/// one decimal.
pub fn storage_full_alert(location_id: &str, name: &str, percent: &str) -> (r: BackupAlertInfo)
    ensures
        alert_is(
            r,
            "alert_storage_full_"@ + location_id@,
            BackupAlertType::StorageFull,
            BackupAlertSeverity::Critical,
            None,
            Some(location_id@),
            "Storage '"@ + name@ + "' is "@ + percent@ + "% full"@,
        ),
{
    let mut id = "alert_storage_full_".to_owned();
    push_chars(&mut id, location_id);
    let mut message = "Storage '".to_owned();
    push_chars(&mut message, name);
    push_chars(&mut message, "' is ");
    push_chars(&mut message, percent);
    push_chars(&mut message, "% full");
    BackupAlertInfo {
        alert_id: id,
        alert_type: BackupAlertType::StorageFull,
        severity: BackupAlertSeverity::Critical,
        job_id: None,
        storage_id: Some(location_id.to_owned()),
        message,
    }
}

/// An alert as plain values: id, type, severity, job, storage location, message.
pub type BackupAlertView = (
    Seq<char>,
    BackupAlertType,
    BackupAlertSeverity,
    Option<Seq<char>>,
    Option<Seq<char>>,
    Seq<char>,
);

/// The alert `a` as plain values.
pub open spec fn backup_alert_view(a: BackupAlertInfo) -> BackupAlertView {
    (
        a.alert_id@,
        a.alert_type,
        a.severity,
        crate::monitor::properties::opt_view(a.job_id),
        crate::monitor::properties::opt_view(a.storage_id),
        a.message@,
    )
}

/// The alerts `als` as plain values, in order.
pub open spec fn backup_alert_views(als: Seq<BackupAlertInfo>) -> Seq<BackupAlertView> {
    Seq::new(als.len(), |i: int| backup_alert_view(als[i]))
}

/// A job's next run is more than an hour before `now` (seconds since the epoch).
pub open spec fn run_missed(next_run: Option<i64>, now: i64) -> bool {
    match next_run {
        Some(t) => now > t + 3600,
        None => false,
    }
}

/// The alerts of one job (`id`, `name`, `status`, next run): an error when it failed,
/// then a warning when it missed its run.
pub open spec fn job_alert_views(job: (String, String, BackupStatus, Option<i64>), now: i64) -> Seq<BackupAlertView> {
    let (id, name, status, next) = job;
    let failed: Seq<BackupAlertView> = if status == BackupStatus::Failed {
        seq![(
            "alert_job_failed_"@ + id@,
            BackupAlertType::JobFailed,
            BackupAlertSeverity::Error,
            Some(id@),
            None,
            "Backup job '"@ + name@ + "' failed"@,
        )]
    } else {
        Seq::empty()
    };
    let missed: Seq<BackupAlertView> = if run_missed(next, now) {
        seq![(
            "alert_job_missed_"@ + id@,
            BackupAlertType::JobMissed,
            BackupAlertSeverity::Warning,
            Some(id@),
            None,
            "Backup job '"@ + name@ + "' missed scheduled run"@,
        )]
    } else {
        Seq::empty()
    };
    failed + missed
}

/// The alerts of one storage location (`id`, `name`, its use as shown where it is over
/// 90 %, whether it is accessible): a full alert, then an offline alert.
pub open spec fn storage_alert_views(st: (String, String, Option<String>, bool)) -> Seq<BackupAlertView> {
    let (id, name, full, accessible) = st;
    let f: Seq<BackupAlertView> = match full {
        Some(p) => seq![(
            "alert_storage_full_"@ + id@,
            BackupAlertType::StorageFull,
            BackupAlertSeverity::Critical,
            None,
            Some(id@),
            "Storage '"@ + name@ + "' is "@ + p@ + "% full"@,
        )],
        None => Seq::empty(),
    };
    let o: Seq<BackupAlertView> = if !accessible {
        seq![(
            "alert_storage_offline_"@ + id@,
            BackupAlertType::StorageOffline,
            BackupAlertSeverity::Critical,
            None,
            Some(id@),
            "Storage '"@ + name@ + "' is not accessible"@,
        )]
    } else {
        Seq::empty()
    };
    f + o
}

/// The alerts of the jobs `jobs`, job by job.
pub open spec fn jobs_alert_views(jobs: Seq<(String, String, BackupStatus, Option<i64>)>, now: i64) -> Seq<BackupAlertView>
    decreases jobs.len(),
{
    if jobs.len() == 0 {
        Seq::empty()
    } else {
        jobs_alert_views(jobs.drop_last(), now) + job_alert_views(jobs.last(), now)
    }
}

/// The alerts of the storage locations `storage`, location by location.
pub open spec fn storages_alert_views(storage: Seq<(String, String, Option<String>, bool)>) -> Seq<BackupAlertView>
    decreases storage.len(),
{
    if storage.len() == 0 {
        Seq::empty()
    } else {
        storages_alert_views(storage.drop_last()) + storage_alert_views(storage.last())
    }
}

/// The backup alerts: those of every job, then those of every storage location.
pub open spec fn backup_alerts_of(
    jobs: Seq<(String, String, BackupStatus, Option<i64>)>,
    storage: Seq<(String, String, Option<String>, bool)>,
    now: i64,
) -> Seq<BackupAlertView> {
    jobs_alert_views(jobs, now) + storages_alert_views(storage)
}

/// The alerts the backup jobs and storage locations call for at `now` (seconds since
/// the epoch): each job is `(id, name, status, next run)`, each location `(id, name,
/// its use as shown when over 90 %, whether it is accessible)`; see `backup_alerts_of`.
pub fn backup_alerts(
    jobs: &[(String, String, BackupStatus, Option<i64>)],
    storage: &[(String, String, Option<String>, bool)],
    now: i64,
) -> (r: Vec<BackupAlertInfo>)
    ensures
        backup_alert_views(r@) == backup_alerts_of(jobs@, storage@, now),
{
    let mut r: Vec<BackupAlertInfo> = Vec::new();
    let mut i: usize = 0;
    while i < jobs.len()
        invariant
            i <= jobs@.len(),
            backup_alert_views(r@) == jobs_alert_views(jobs@.take(i as int), now),
        decreases jobs.len() - i,
    {
        assert(jobs@.take(i + 1).drop_last() == jobs@.take(i as int));
        let job = &jobs[i];
        let missed = match job.3 {
            Some(t) => (now as i128) > (t as i128) + 3600,
            None => false,
        };
        let mut a = job_alerts(job.0.as_str(), job.1.as_str(), job.2, missed);
        let ghost before = r@;
        let ghost av = a@;
        r.append(&mut a);
        assert(backup_alert_views(av) =~= job_alert_views(jobs@[i as int], now));
        assert(backup_alert_views(r@) =~= backup_alert_views(before) + backup_alert_views(av));
        i = i + 1;
    }
    assert(jobs@.take(i as int) == jobs@);
    let ghost jv = backup_alert_views(r@);
    let mut k: usize = 0;
    while k < storage.len()
        invariant
            k <= storage@.len(),
            jv == jobs_alert_views(jobs@, now),
            backup_alert_views(r@) == jv + storages_alert_views(storage@.take(k as int)),
        decreases storage.len() - k,
    {
        assert(storage@.take(k + 1).drop_last() == storage@.take(k as int));
        let st = &storage[k];
        let ghost before = backup_alert_views(r@);
        let ghost mid = before;
        match &st.2 {
            Some(p) => {
                let a = storage_full_alert(st.0.as_str(), st.1.as_str(), p.as_str());
                let ghost rb = r@;
                r.push(a);
                assert(backup_alert_views(r@) =~= backup_alert_views(rb).push(backup_alert_view(a)));
            },
            None => {},
        }
        if !st.3 {
            let a = storage_offline_alert(st.0.as_str(), st.1.as_str());
            let ghost rb = r@;
            r.push(a);
            assert(backup_alert_views(r@) =~= backup_alert_views(rb).push(backup_alert_view(a)));
        }
        assert(backup_alert_views(r@) =~= before + storage_alert_views(storage@[k as int]));
        assert(jv + storages_alert_views(storage@.take(k + 1)) =~= jv + storages_alert_views(storage@.take(k as int))
            + storage_alert_views(storage@[k as int]));
        k = k + 1;
    }
    assert(storage@.take(k as int) == storage@);
    r
}

} // verus!
