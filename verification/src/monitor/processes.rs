//! Process states and how processes are grouped for display.
use vstd::prelude::*;
use crate::num::dec_digits;
use crate::text::{push_chars, str_eq};

verus! {

/// The scheduling state of a process.
#[derive(Debug, Clone, Copy, PartialEq, Eq, Structural)]
pub enum ProcessStatusInfo {
    Running,
    Sleeping,
    Waiting,
    Zombie,
    Stopped,
    Tracing,
    Dead,
    Unknown,
}

/// What processes are grouped by.
#[derive(Debug, Clone, Copy, PartialEq, Eq, Structural)]
pub enum ProcessGroupBy {
    User,
    Parent,
    Application,
    Status,
    NoGrouping,
}

/// The name of a process state.
pub open spec fn status_name(s: ProcessStatusInfo) -> Seq<char> {
    match s {
        ProcessStatusInfo::Running => "Running"@,
        ProcessStatusInfo::Sleeping => "Sleeping"@,
        ProcessStatusInfo::Waiting => "Waiting"@,
        ProcessStatusInfo::Zombie => "Zombie"@,
        ProcessStatusInfo::Stopped => "Stopped"@,
        ProcessStatusInfo::Tracing => "Tracing"@,
        ProcessStatusInfo::Dead => "Dead"@,
        ProcessStatusInfo::Unknown => "Unknown"@,
    }
}

/// The symbol shown for a process state.
pub open spec fn status_emoji(s: ProcessStatusInfo) -> Seq<char> {
    match s {
        ProcessStatusInfo::Running => "🏃"@,
        ProcessStatusInfo::Sleeping => "😴"@,
        ProcessStatusInfo::Waiting => "⏳"@,
        ProcessStatusInfo::Zombie => "🧟"@,
        ProcessStatusInfo::Stopped => "⏹️"@,
        ProcessStatusInfo::Tracing => "🔍"@,
        ProcessStatusInfo::Dead => "💀"@,
        ProcessStatusInfo::Unknown => "❓"@,
    }
}

impl ProcessStatusInfo {
    /// The name of the state.
    pub fn as_str(&self) -> (r: &'static str)
        ensures
            r@ == status_name(*self),
    {
        match self {
            ProcessStatusInfo::Running => "Running",
            ProcessStatusInfo::Sleeping => "Sleeping",
            ProcessStatusInfo::Waiting => "Waiting",
            ProcessStatusInfo::Zombie => "Zombie",
            ProcessStatusInfo::Stopped => "Stopped",
            ProcessStatusInfo::Tracing => "Tracing",
            ProcessStatusInfo::Dead => "Dead",
            ProcessStatusInfo::Unknown => "Unknown",
        }
    }

    /// The symbol shown for the state.
    pub fn emoji(&self) -> (r: &'static str)
        ensures
            r@ == status_emoji(*self),
    {
        match self {
            ProcessStatusInfo::Running => "🏃",
            ProcessStatusInfo::Sleeping => "😴",
            ProcessStatusInfo::Waiting => "⏳",
            ProcessStatusInfo::Zombie => "🧟",
            ProcessStatusInfo::Stopped => "⏹️",
            ProcessStatusInfo::Tracing => "🔍",
            ProcessStatusInfo::Dead => "💀",
            ProcessStatusInfo::Unknown => "❓",
        }
    }
}

/// The grouping that follows `g` when the user cycles through them.
pub open spec fn next_group_by(g: ProcessGroupBy) -> ProcessGroupBy {
    match g {
        ProcessGroupBy::NoGrouping => ProcessGroupBy::User,
        ProcessGroupBy::User => ProcessGroupBy::Parent,
        ProcessGroupBy::Parent => ProcessGroupBy::Application,
        ProcessGroupBy::Application => ProcessGroupBy::Status,
        ProcessGroupBy::Status => ProcessGroupBy::NoGrouping,
    }
}

impl ProcessGroupBy {
    /// The grouping that follows this one.
    pub fn next(&self) -> (r: ProcessGroupBy)
        ensures
            r == next_group_by(*self),
    {
        match self {
            ProcessGroupBy::NoGrouping => ProcessGroupBy::User,
            ProcessGroupBy::User => ProcessGroupBy::Parent,
            ProcessGroupBy::Parent => ProcessGroupBy::Application,
            ProcessGroupBy::Application => ProcessGroupBy::Status,
            ProcessGroupBy::Status => ProcessGroupBy::NoGrouping,
        }
    }
}

/// The name of the group a process falls in: its user, its parent, its application
/// (the executable's name, else the process name) or its state; all processes share
/// one group when nothing is grouped by.
pub open spec fn group_key_of(
    g: ProcessGroupBy,
    user: Seq<char>,
    parent_pid: Option<u32>,
    app_name: Option<Seq<char>>,
    name: Seq<char>,
    status: ProcessStatusInfo,
) -> Seq<char> {
    match g {
        ProcessGroupBy::NoGrouping => "All Processes"@,
        ProcessGroupBy::User => user,
        ProcessGroupBy::Parent => match parent_pid {
            Some(p) => "Parent PID: "@ + dec_digits(p as nat),
            None => "Root Processes"@,
        },
        ProcessGroupBy::Application => match app_name {
            Some(a) => a,
            None => name,
        },
        ProcessGroupBy::Status => status_name(status),
    }
}

/// The name of the group a process falls in (see `group_key_of`).
pub fn group_key(
    g: ProcessGroupBy,
    user: &str,
    parent_pid: Option<u32>,
    app_name: Option<&str>,
    name: &str,
    status: ProcessStatusInfo,
) -> (r: String)
    ensures
        r@ == group_key_of(
            g,
            user@,
            parent_pid,
            match app_name {
                Some(a) => Some(a@),
                None => None,
            },
            name@,
            status,
        ),
{
    match g {
        ProcessGroupBy::NoGrouping => "All Processes".to_owned(),
        ProcessGroupBy::User => user.to_owned(),
        ProcessGroupBy::Parent => match parent_pid {
            Some(p) => {
                let mut r = "Parent PID: ".to_owned();
                crate::num::push_dec(&mut r, p as u64);
                r
            },
            None => "Root Processes".to_owned(),
        },
        ProcessGroupBy::Application => match app_name {
            Some(a) => a.to_owned(),
            None => name.to_owned(),
        },
        ProcessGroupBy::Status => status.as_str().to_owned(),
    }
}

/// A group of items sharing one key: the key, and the positions of its members.
#[derive(Debug, Clone)]
pub struct KeyGroup {
    pub name: String,
    pub members: Vec<usize>,
}

/// Position `i` is a member of one of `groups`.
pub open spec fn listed_in(groups: Seq<KeyGroup>, i: int) -> bool {
    exists|a: int, m: int|
        0 <= a < groups.len() && 0 <= m < groups[a].members@.len() && #[trigger] groups[a].members@[m]
            == i
}

/// `groups` partitions the positions of `keys` by key: group names are distinct, each
/// group lists, in increasing order, exactly the positions whose key is its name.
pub open spec fn partitions_by_key(groups: Seq<KeyGroup>, keys: Seq<String>) -> bool {
    &&& forall|a: int, b: int|
        0 <= a < b < groups.len() ==> #[trigger] groups[a].name@ != #[trigger] groups[b].name@
    &&& forall|a: int, m: int|
        0 <= a < groups.len() && 0 <= m < groups[a].members@.len() ==> {
            let i = #[trigger] groups[a].members@[m];
            i < keys.len() && keys[i as int]@ == groups[a].name@
        }
    &&& forall|a: int, m: int, n: int|
        0 <= a < groups.len() && 0 <= m < n < groups[a].members@.len() ==> #[trigger] groups[a].members@[m]
            < #[trigger] groups[a].members@[n]
    &&& forall|i: int| 0 <= i < keys.len() ==> #[trigger] listed_in(groups, i)
    &&& forall|a: int| 0 <= a < groups.len() ==> #[trigger] groups[a].members@.len() > 0
}

/// A copy of a list of positions.
fn copy_positions(v: &Vec<usize>) -> (r: Vec<usize>)
    ensures
        r@ == v@,
{
    let mut r: Vec<usize> = Vec::new();
    let mut i: usize = 0;
    while i < v.len()
        invariant
            i <= v@.len(),
            r@ == v@.take(i as int),
        decreases v.len() - i,
    {
        r.push(v[i]);
        assert(v@.take(i + 1) == v@.take(i as int).push(v@[i as int]));
        i = i + 1;
    }
    assert(v@.take(i as int) == v@);
    r
}

/// Groups the positions `0..keys.len()` by their key, groups in the order their keys
/// first appear.
pub fn partition_by_key(keys: &Vec<String>) -> (r: Vec<KeyGroup>)
    ensures
        partitions_by_key(r@, keys@),
{
    let mut groups: Vec<KeyGroup> = Vec::new();
    let mut i: usize = 0;
    while i < keys.len()
        invariant
            i <= keys@.len(),
            partitions_by_key(groups@, keys@.take(i as int)),
        decreases keys.len() - i,
    {
        let ghost pre = keys@.take(i as int);
        let ghost post = keys@.take(i + 1);
        assert(forall|j: int| 0 <= j < i ==> post[j] == pre[j]);
        let mut j: usize = 0;
        let mut found: Option<usize> = None;
        while j < groups.len()
            invariant_except_break
                found is None,
            invariant
                j <= groups@.len(),
                i < keys@.len(),
                forall|a: int| 0 <= a < j ==> groups@[a].name@ != keys@[i as int]@,
            ensures
                match found {
                    Some(a) => a < groups@.len() && groups@[a as int].name@ == keys@[i as int]@,
                    None => forall|a: int| 0 <= a < groups@.len() ==> groups@[a].name@ != keys@[i as int]@,
                },
            decreases groups.len() - j,
        {
            if str_eq(groups[j].name.as_str(), keys[i].as_str()) {
                found = Some(j);
                break;
            }
            j = j + 1;
        }
        let ghost old_groups = groups@;
        match found {
            Some(a) => {
                let mut members = copy_positions(&groups[a].members);
                members.push(i);
                let name = groups[a].name.clone();
                groups.set(a, KeyGroup { name, members });
                assert forall|b: int, m: int|
                    0 <= b < groups@.len() && 0 <= m < groups@[b].members@.len() implies {
                        let k = #[trigger] groups@[b].members@[m];
                        k < post.len() && post[k as int]@ == groups@[b].name@
                    } by {
                    if b != a as int {
                        assert(groups@[b] == old_groups[b]);
                    } else if m < old_groups[b].members@.len() {
                        assert(groups@[b].members@[m] == old_groups[b].members@[m]);
                    }
                }
                assert forall|k: int| 0 <= k < post.len() implies #[trigger] listed_in(groups@, k) by {
                    if k < i {
                        assert(listed_in(old_groups, k));
                        let (b, m) = choose|b: int, m: int|
                            0 <= b < old_groups.len() && 0 <= m < old_groups[b].members@.len()
                                && #[trigger] old_groups[b].members@[m] == k;
                        if b == a as int {
                            assert(groups@[b].members@ == old_groups[b].members@.push(i as usize));
                        } else {
                            assert(groups@[b] == old_groups[b]);
                        }
                        assert(groups@[b].members@[m] == k);
                    } else {
                        let m = old_groups[a as int].members@.len() as int;
                        assert(groups@[a as int].members@[m] == k);
                    }
                }
            },
            None => {
                let mut members: Vec<usize> = Vec::new();
                members.push(i);
                groups.push(KeyGroup { name: keys[i].clone(), members });
                assert forall|b: int, m: int|
                    0 <= b < groups@.len() && 0 <= m < groups@[b].members@.len() implies {
                        let k = #[trigger] groups@[b].members@[m];
                        k < post.len() && post[k as int]@ == groups@[b].name@
                    } by {
                    if b < old_groups.len() {
                        assert(groups@[b] == old_groups[b]);
                    }
                }
                assert forall|k: int| 0 <= k < post.len() implies #[trigger] listed_in(groups@, k) by {
                    if k < i {
                        assert(listed_in(old_groups, k));
                        let (b, m) = choose|b: int, m: int|
                            0 <= b < old_groups.len() && 0 <= m < old_groups[b].members@.len()
                                && #[trigger] old_groups[b].members@[m] == k;
                        assert(groups@[b] == old_groups[b]);
                        assert(groups@[b].members@[m] == k);
                    } else {
                        assert(groups@[old_groups.len() as int].members@[0] == k);
                    }
                }
            },
        }
        i = i + 1;
    }
    assert(keys@.take(i as int) == keys@);
    groups
}

/// The groups of the processes whose group keys are `keys` under the grouping `g`:
/// without grouping, one group `All Processes` of every process (also of none);
/// otherwise the partition of the positions by key (see `partition_by_key`).
pub fn group_positions(g: ProcessGroupBy, keys: &Vec<String>) -> (r: Vec<KeyGroup>)
    ensures
        g == ProcessGroupBy::NoGrouping ==> r@.len() == 1 && r@[0].name@ == "All Processes"@
            && r@[0].members@.len() == keys@.len() && forall|i: int|
            0 <= i < keys@.len() ==> #[trigger] r@[0].members@[i] == i,
        g != ProcessGroupBy::NoGrouping ==> partitions_by_key(r@, keys@),
{
    match g {
        ProcessGroupBy::NoGrouping => {
            let mut members: Vec<usize> = Vec::new();
            let mut i: usize = 0;
            while i < keys.len()
                invariant
                    i <= keys@.len(),
                    members@.len() == i,
                    forall|j: int| 0 <= j < i ==> #[trigger] members@[j] == j,
                decreases keys.len() - i,
            {
                members.push(i);
                i = i + 1;
            }
            let mut r: Vec<KeyGroup> = Vec::new();
            r.push(KeyGroup { name: "All Processes".to_owned(), members });
            r
        },
        _ => partition_by_key(keys),
    }
}

} // verus!
