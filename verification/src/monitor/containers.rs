//! Containers of Docker and Podman: their states, and the fields of their reports.
use vstd::prelude::*;
use crate::num::{parse_uint, parse_unsigned};
use crate::text::{
    chars_of, contains, occurs_at, find_char, find_seq, first_occurrence, lemma_first_occurrence, lines,
    lower_text, pieces, pos_of, slice_chars, split_char, split_lines, string_of_all, to_lower,
    trim, trim_chars, views_of,
};

verus! {

/// The state of a container.
#[derive(Debug, Clone, Copy, PartialEq, Eq, Structural)]
pub enum ContainerStatus {
    Running,
    Exited,
    Created,
    Restarting,
    Paused,
    Dead,
    Unknown,
}

/// A container engine.
#[derive(Debug, Clone, Copy, PartialEq, Eq, Structural)]
pub enum ContainerRuntime {
    Docker,
    Podman,
}

/// A published port: the container's port, the host's if bound, and the protocol.
#[derive(Debug, Clone)]
pub struct PortMapping {
    pub container_port: u16,
    pub host_port: Option<u16>,
    pub protocol: String,
}

/// The container engines found on the host.
#[derive(Debug, Clone)]
pub struct ContainerMonitor {
    pub available_runtimes: Vec<ContainerRuntime>,
}

/// The state a lower-case state word stands for.
pub open spec fn status_named(s: Seq<char>) -> ContainerStatus {
    if s == "running"@ || s == "up"@ {
        ContainerStatus::Running
    } else if s == "exited"@ || s == "stopped"@ {
        ContainerStatus::Exited
    } else if s == "created"@ {
        ContainerStatus::Created
    } else if s == "restarting"@ {
        ContainerStatus::Restarting
    } else if s == "paused"@ {
        ContainerStatus::Paused
    } else if s == "dead"@ {
        ContainerStatus::Dead
    } else {
        ContainerStatus::Unknown
    }
}

impl Default for ContainerStatus {
    fn default() -> (r: Self)
        ensures
            r == ContainerStatus::Unknown,
    {
        ContainerStatus::Unknown
    }
}

impl ContainerStatus {
    /// The state named by a word taken as already lower-case.
    pub fn from_lowercase(s: &str) -> (r: ContainerStatus)
        ensures
            r == status_named(s@),
    {
        if crate::text::str_eq(s, "running") || crate::text::str_eq(s, "up") {
            ContainerStatus::Running
        } else if crate::text::str_eq(s, "exited") || crate::text::str_eq(s, "stopped") {
            ContainerStatus::Exited
        } else if crate::text::str_eq(s, "created") {
            ContainerStatus::Created
        } else if crate::text::str_eq(s, "restarting") {
            ContainerStatus::Restarting
        } else if crate::text::str_eq(s, "paused") {
            ContainerStatus::Paused
        } else if crate::text::str_eq(s, "dead") {
            ContainerStatus::Dead
        } else {
            ContainerStatus::Unknown
        }
    }

    /// The state named by an engine's state word, in any letter case.
    pub fn from_state(s: &str) -> (r: ContainerStatus)
        ensures
            r == status_named(lower_text(s@)),
    {
        let lower = to_lower(s);
        ContainerStatus::from_lowercase(lower.as_str())
    }
}

impl ContainerMonitor {
    /// The engines found: Docker if its probe answered, then Podman if its did.
    pub fn from_probes(docker_found: bool, podman_found: bool) -> (r: ContainerMonitor)
        ensures
            r.available_runtimes@ == (if docker_found {
                seq![ContainerRuntime::Docker]
            } else {
                Seq::empty()
            }) + (if podman_found {
                seq![ContainerRuntime::Podman]
            } else {
                Seq::empty()
            }),
    {
        let mut v: Vec<ContainerRuntime> = Vec::new();
        if docker_found {
            v.push(ContainerRuntime::Docker);
        }
        if podman_found {
            v.push(ContainerRuntime::Podman);
        }
        assert(v@ =~= (if docker_found {
            seq![ContainerRuntime::Docker]
        } else {
            Seq::empty()
        }) + (if podman_found {
            seq![ContainerRuntime::Podman]
        } else {
            Seq::empty()
        }));
        ContainerMonitor { available_runtimes: v }
    }

    /// Whether `runtime` was found.
    pub fn has_runtime(&self, runtime: &ContainerRuntime) -> (r: bool)
        ensures
            r == self.available_runtimes@.contains(*runtime),
    {
        let mut i: usize = 0;
        while i < self.available_runtimes.len()
            invariant
                i <= self.available_runtimes@.len(),
                forall|j: int| 0 <= j < i ==> self.available_runtimes@[j] != *runtime,
            decreases self.available_runtimes.len() - i,
        {
            if self.available_runtimes[i] == *runtime {
                return true;
            }
            i = i + 1;
        }
        false
    }

    /// The engines found.
    pub fn get_available_runtimes(&self) -> (r: &[ContainerRuntime])
        ensures
            r@ == self.available_runtimes@,
    {
        self.available_runtimes.as_slice()
    }
}

/// How many of `s` are running.
pub open spec fn running_count(s: Seq<ContainerStatus>) -> nat
    decreases s.len(),
{
    if s.len() == 0 {
        0
    } else {
        running_count(s.drop_last()) + if s.last() == ContainerStatus::Running {
            1nat
        } else {
            0nat
        }
    }
}

/// How many of the containers are running.
pub fn count_running(statuses: &[ContainerStatus]) -> (r: usize)
    ensures
        r == running_count(statuses@),
{
    let mut n: usize = 0;
    let mut i: usize = 0;
    while i < statuses.len()
        invariant
            i <= statuses@.len(),
            n == running_count(statuses@.take(i as int)),
            n <= i,
        decreases statuses.len() - i,
    {
        assert(statuses@.take(i + 1).drop_last() == statuses@.take(i as int));
        if statuses[i] == ContainerStatus::Running {
            n = n + 1;
        }
        i = i + 1;
    }
    assert(statuses@.take(i as int) == statuses@);
    n
}

/// The port mapping a trimmed, non-empty item of a port list describes, if any:
/// `host->port/proto`, the host port being the decimal number after the host part's
/// last colon (if it is one), or a port not published, `port/proto`, with no host port;
/// the container port is 0 where its number does not parse.
pub open spec fn port_mapping_of(t: Seq<char>) -> Option<(nat, Option<nat>, Seq<char>)> {
    if !contains(t, "->"@) {
        if !t.contains('/') {
            None
        } else {
            let k = pos_of(t, '/') as int;
            let cp = match parse_unsigned(t.take(k), 10, 0xffff) {
                Some(x) => x,
                None => 0,
            };
            Some((cp, None, t.skip(k + 1)))
        }
    } else {
        let a = first_occurrence(t, "->"@);
        let host = t.take(a);
        let cont = t.skip(a + 2);
        if !cont.contains('/') {
            None
        } else {
            let k = pos_of(cont, '/') as int;
            let hp = parse_unsigned(pieces(host, ':').last(), 10, 0xffff);
            let cp = match parse_unsigned(cont.take(k), 10, 0xffff) {
                Some(x) => x,
                None => 0,
            };
            Some((cp, hp, cont.skip(k + 1)))
        }
    }
}

/// The port mappings of a list of items, in order, skipping blank and unreadable ones.
pub open spec fn port_mappings(items: Seq<Seq<char>>) -> Seq<(nat, Option<nat>, Seq<char>)>
    decreases items.len(),
{
    if items.len() == 0 {
        Seq::empty()
    } else {
        let init = port_mappings(items.drop_last());
        let t = trim(items.last());
        if t.len() == 0 {
            init
        } else {
            match port_mapping_of(t) {
                Some(m) => init.push(m),
                None => init,
            }
        }
    }
}

/// `p` holds the mapping `m`.
pub open spec fn mapping_is(p: PortMapping, m: (nat, Option<nat>, Seq<char>)) -> bool {
    &&& p.container_port == m.0
    &&& match (p.host_port, m.1) {
        (Some(h), Some(x)) => h == x,
        (None, None) => true,
        _ => false,
    }
    &&& p.protocol@ == m.2
}

/// Reads one trimmed, non-empty item of a port list.
fn read_port_mapping(t: &Vec<char>) -> (r: Option<PortMapping>)
    requires
        t@.len() > 0,
    ensures
        match port_mapping_of(t@) {
            Some(m) => r matches Some(p) && mapping_is(p, m),
            None => r is None,
        },
{
    proof {
        reveal_strlit("->");
    }
    let pat: Vec<char> = vec!['-', '>'];
    assert(pat@ =~= "->"@);
    let arrow = find_seq(t.as_slice(), pat.as_slice());
    match arrow {
        None => {
            match find_char(t.as_slice(), '/') {
                None => None,
                Some(k) => {
                    proof {
                        crate::text::lemma_pos_of_bound(t@, '/');
                    }
                    let n = t.len();
                    assert(k < n);
                    assert(t@[k as int] == '/');
                    assert(t@.contains('/'));
                    let num = slice_chars(t.as_slice(), 0, k);
                    assert(num@ == t@.take(k as int));
                    let container_port: u16 = match parse_uint(num.as_slice(), 10, 0xffff) {
                        Some(x) => x as u16,
                        None => 0,
                    };
                    let proto = slice_chars(t.as_slice(), k + 1, n);
                    assert(proto@ == t@.skip(k + 1));
                    Some(PortMapping { container_port, host_port: None, protocol: string_of_all(proto.as_slice()) })
                },
            }
        },
        Some(a) => {
            assert(occurs_at(t@, pat@, a as int));
            let n = t.len();
            assert(a + 2 <= n);
            proof {
                lemma_first_occurrence(t@, "->"@, a as int);
            }
            let host = slice_chars(t.as_slice(), 0, a);
            let cont = slice_chars(t.as_slice(), a + 2, t.len());
            assert(host@ == t@.take(a as int));
            assert(cont@ == t@.skip(a + 2));
            match find_char(cont.as_slice(), '/') {
                None => None,
                Some(k) => {
                    proof {
                        crate::text::lemma_pos_of_bound(cont@, '/');
                    }
                    assert(cont@[k as int] == '/');
                    assert(cont@.contains('/'));
                    let host_pieces = split_char(host.as_slice(), ':');
                    let last = &host_pieces[host_pieces.len() - 1];
                    assert(views_of(host_pieces@).last() == last@);
                    let host_port = match parse_uint(last.as_slice(), 10, 0xffff) {
                        Some(x) => Some(x as u16),
                        None => None,
                    };
                    let num = slice_chars(cont.as_slice(), 0, k);
                    assert(num@ == cont@.take(k as int));
                    let container_port: u16 = match parse_uint(num.as_slice(), 10, 0xffff) {
                        Some(x) => x as u16,
                        None => 0,
                    };
                    let proto = slice_chars(cont.as_slice(), k + 1, cont.len());
                    assert(proto@ == cont@.skip(k + 1));
                    Some(PortMapping { container_port, host_port, protocol: string_of_all(proto.as_slice()) })
                },
            }
        },
    }
}

/// The port mappings of an engine's port list, such as `0.0.0.0:8080->80/tcp, 443/tcp`:
/// comma-separated items, each trimmed; blank ones and those without a `/` (after the
/// `->` where there is one) are skipped.
pub fn parse_ports(ports_str: &str) -> (r: Vec<PortMapping>)
    ensures
        r@.len() == port_mappings(pieces(ports_str@, ',')).len(),
        forall|i: int|
            0 <= i < r@.len() ==> mapping_is(#[trigger] r@[i], port_mappings(pieces(ports_str@, ','))[i]),
{
    let v = chars_of(ports_str);
    let items = split_char(&v, ',');
    let ghost all = pieces(ports_str@, ',');
    let mut r: Vec<PortMapping> = Vec::new();
    let mut i: usize = 0;
    while i < items.len()
        invariant
            i <= items@.len(),
            views_of(items@) == all,
            all == pieces(ports_str@, ','),
            r@.len() == port_mappings(all.take(i as int)).len(),
            forall|j: int|
                0 <= j < r@.len() ==> mapping_is(#[trigger] r@[j], port_mappings(all.take(i as int))[j]),
        decreases items.len() - i,
    {
        assert(all.take(i + 1).drop_last() == all.take(i as int));
        assert(all.take(i + 1).last() == items@[i as int]@);
        let t = trim_chars(items[i].as_slice());
        if t.len() > 0 {
            match read_port_mapping(&t) {
                Some(p) => {
                    r.push(p);
                },
                None => {},
            }
        }
        i = i + 1;
    }
    assert(all.take(i as int) == all);
    r
}

/// The position of the first pair with key `k`, or -1.
pub open spec fn key_pos(ps: Seq<(Seq<char>, Seq<char>)>, k: Seq<char>) -> int
    decreases ps.len(),
{
    if ps.len() == 0 {
        -1
    } else if ps[0].0 == k {
        0
    } else {
        let r = key_pos(ps.drop_first(), k);
        if r < 0 {
            -1
        } else {
            r + 1
        }
    }
}

proof fn lemma_key_pos(ps: Seq<(Seq<char>, Seq<char>)>, k: Seq<char>, i: int)
    requires
        0 <= i <= ps.len(),
        forall|j: int| 0 <= j < i ==> ps[j].0 != k,
        i < ps.len() ==> ps[i].0 == k,
    ensures
        key_pos(ps, k) == if i < ps.len() { i } else { -1 },
    decreases ps.len(),
{
    if ps.len() > 0 && i > 0 {
        assert forall|j: int| 0 <= j < i - 1 implies ps.drop_first()[j].0 != k by {
            assert(ps.drop_first()[j] == ps[j + 1]);
        }
        if i < ps.len() {
            assert(ps.drop_first()[i - 1] == ps[i]);
        }
        lemma_key_pos(ps.drop_first(), k, i - 1);
    }
}

/// `ps` with the label `k` set to `v`: its value replaced where the key is present,
/// else the pair added at the end.
pub open spec fn set_label(ps: Seq<(Seq<char>, Seq<char>)>, k: Seq<char>, v: Seq<char>) -> Seq<
    (Seq<char>, Seq<char>),
> {
    let p = key_pos(ps, k);
    if p >= 0 {
        ps.update(p, (k, v))
    } else {
        ps.push((k, v))
    }
}

/// The labels of a list of `key=value` items, each trimmed and split at its first
/// `=`; items without `=` are skipped, and a later value of a key replaces an earlier
/// one in its place.
pub open spec fn label_pairs(items: Seq<Seq<char>>) -> Seq<(Seq<char>, Seq<char>)>
    decreases items.len(),
{
    if items.len() == 0 {
        Seq::empty()
    } else {
        let init = label_pairs(items.drop_last());
        let t = trim(items.last());
        if !t.contains('=') {
            init
        } else {
            let k = pos_of(t, '=') as int;
            set_label(init, t.take(k), t.skip(k + 1))
        }
    }
}

/// The character sequences of a list of string pairs.
pub open spec fn pair_views(v: Seq<(String, String)>) -> Seq<(Seq<char>, Seq<char>)> {
    Seq::new(v.len(), |i: int| (v[i].0@, v[i].1@))
}

/// The labels of an engine's label list, such as `a=1,b=2`, in the order their keys
/// first appear (see `label_pairs`).
pub fn parse_labels(labels_str: &str) -> (r: Vec<(String, String)>)
    ensures
        pair_views(r@) == label_pairs(pieces(labels_str@, ',')),
{
    let v = chars_of(labels_str);
    let items = split_char(&v, ',');
    let ghost all = pieces(labels_str@, ',');
    let mut r: Vec<(String, String)> = Vec::new();
    let mut i: usize = 0;
    while i < items.len()
        invariant
            i <= items@.len(),
            views_of(items@) == all,
            pair_views(r@) == label_pairs(all.take(i as int)),
        decreases items.len() - i,
    {
        assert(all.take(i + 1).drop_last() == all.take(i as int));
        assert(all.take(i + 1).last() == items@[i as int]@);
        let t = trim_chars(items[i].as_slice());
        match find_char(t.as_slice(), '=') {
            None => {},
            Some(e) => {
                proof {
                    crate::text::lemma_pos_of_bound(t@, '=');
                }
                let n = t.len();
                assert(e < n);
                assert(t@[e as int] == '=');
                assert(t@.contains('='));
                let key = string_of_all(slice_chars(t.as_slice(), 0, e).as_slice());
                let value = string_of_all(slice_chars(t.as_slice(), e + 1, n).as_slice());
                assert(key@ == t@.take(e as int));
                assert(value@ == t@.skip(e + 1));
                let ghost before = pair_views(r@);
                let mut j: usize = 0;
                let mut at: Option<usize> = None;
                while j < r.len()
                    invariant_except_break
                        at is None,
                    invariant
                        j <= r@.len(),
                        before == pair_views(r@),
                        forall|x: int| 0 <= x < j ==> before[x].0 != key@,
                    ensures
                        match at {
                            Some(x) => x < r@.len() && before[x as int].0 == key@ && forall|y: int|
                                0 <= y < x ==> before[y].0 != key@,
                            None => forall|y: int| 0 <= y < r@.len() ==> before[y].0 != key@,
                        },
                    decreases r.len() - j,
                {
                    if crate::text::str_eq(r[j].0.as_str(), key.as_str()) {
                        at = Some(j);
                        break;
                    }
                    j = j + 1;
                }
                match at {
                    Some(x) => {
                        proof {
                            lemma_key_pos(before, key@, x as int);
                        }
                        let ghost kv = key@;
                        let ghost vv = value@;
                        r.set(x, (key, value));
                        assert(pair_views(r@) =~= before.update(x as int, (kv, vv)));
                    },
                    None => {
                        proof {
                            lemma_key_pos(before, key@, before.len() as int);
                        }
                        let ghost kv = key@;
                        let ghost vv = value@;
                        r.push((key, value));
                        assert(pair_views(r@) =~= before.push((kv, vv)));
                    },
                }
            },
        }
        i = i + 1;
    }
    assert(all.take(i as int) == all);
    r
}

/// The two sides of an engine's `used / limit` figure, such as `1.2GiB / 4GiB`: the
/// text must split at ` / ` into exactly two parts.
pub open spec fn io_pair_of(s: Seq<char>) -> Option<(Seq<char>, Seq<char>)> {
    if !contains(s, " / "@) {
        None
    } else {
        let a = first_occurrence(s, " / "@);
        if contains(s.skip(a + 3), " / "@) {
            None
        } else {
            Some((s.take(a), s.skip(a + 3)))
        }
    }
}

/// Splits a `used / limit` figure into its two sides (see `io_pair_of`).
pub fn split_io_pair(s: &str) -> (r: Option<(String, String)>)
    ensures
        match io_pair_of(s@) {
            Some((a, b)) => r matches Some((x, y)) && x@ == a && y@ == b,
            None => r is None,
        },
{
    proof {
        reveal_strlit(" / ");
    }
    let pat: Vec<char> = vec![' ', '/', ' '];
    assert(pat@ =~= " / "@);
    let v = chars_of(s);
    match find_seq(v.as_slice(), pat.as_slice()) {
        None => None,
        Some(a) => {
            proof {
                lemma_first_occurrence(v@, " / "@, a as int);
            }
            let n = v.len();
            assert(a + 3 <= n);
            let rest = slice_chars(v.as_slice(), a + 3, n);
            assert(rest@ == v@.skip(a + 3));
            match find_seq(rest.as_slice(), pat.as_slice()) {
                Some(_) => None,
                None => {
                    let first = slice_chars(v.as_slice(), 0, a);
                    assert(first@ == v@.take(a as int));
                    Some((string_of_all(first.as_slice()), string_of_all(rest.as_slice())))
                },
            }
        },
    }
}

/// How many of `ls` hold more than white space.
pub open spec fn nonblank_count(ls: Seq<Seq<char>>) -> nat
    decreases ls.len(),
{
    if ls.len() == 0 {
        0
    } else {
        nonblank_count(ls.drop_last()) + if trim(ls.last()).len() > 0 {
            1nat
        } else {
            0nat
        }
    }
}

/// How many lines of an engine's image list name an image (are not blank).
pub fn count_nonblank_lines(text: &str) -> (r: usize)
    ensures
        r == nonblank_count(lines(text@)),
{
    let v = chars_of(text);
    let ls = split_lines(&v);
    let ghost all = lines(text@);
    let mut n: usize = 0;
    let mut i: usize = 0;
    while i < ls.len()
        invariant
            i <= ls@.len(),
            views_of(ls@) == all,
            n == nonblank_count(all.take(i as int)),
            n <= i,
        decreases ls.len() - i,
    {
        assert(all.take(i + 1).drop_last() == all.take(i as int));
        assert(all.take(i + 1).last() == ls@[i as int]@);
        let t = trim_chars(ls[i].as_slice());
        if t.len() > 0 {
            n = n + 1;
        }
        i = i + 1;
    }
    assert(all.take(i as int) == all);
    n
}

/// `s` without its leading slashes.
pub open spec fn without_leading_slashes(s: Seq<char>) -> Seq<char>
    decreases s.len(),
{
    if s.len() > 0 && s[0] == '/' {
        without_leading_slashes(s.drop_first())
    } else {
        s
    }
}

/// A container name as Docker lists it, without its leading slashes
/// (as `trim_start_matches('/')`).
pub fn container_name(names: &str) -> (r: String)
    ensures
        r@ == without_leading_slashes(names@),
{
    let v = chars_of(names);
    let mut i: usize = 0;
    assert(v@.skip(0) == v@);
    while i < v.len() && v[i] == '/'
        invariant
            i <= v@.len(),
            without_leading_slashes(v@) == without_leading_slashes(v@.skip(i as int)),
        decreases v.len() - i,
    {
        assert(v@.skip(i as int).drop_first() == v@.skip(i + 1));
        i = i + 1;
    }
    assert(v@.skip(0) == v@);
    let r = slice_chars(v.as_slice(), i, v.len());
    assert(r@ == v@.skip(i as int));
    string_of_all(r.as_slice())
}

} // verus!
