//! Process dependency analysis: parsing of `/proc` reports and the dependency graph.
use vstd::prelude::*;
use crate::num::{dec_digits, dec_string, parse_uint, parse_unsigned, push_dec};
use crate::text::{
    chars_of, chars_eq, contains_string, contains_u32, find_seq, first_occurrence, lemma_first_occurrence, lemma_push_contains, occurs_at, slice_chars, contains, has_prefix, starts_with, dedup, ends_with, has_sub, has_suffix, lemma_str_views_push, lines,
    pieces, push_char, push_unique, split_char, split_lines, split_words, str_views,
    string_of_all, utf8_len, utf8_len_upto, views_of, words,
};

verus! {

/// Why a line of a `/proc` report could not be read.
#[derive(Debug, Clone, Copy, PartialEq, Eq)]
pub enum DependencyError {
    /// A field that should hold a hexadecimal number does not.
    InvalidHexNumber,
    /// A field that should hold a decimal number does not.
    InvalidDecimalNumber,
    /// A memory-map line has fewer than five fields.
    InvalidMemoryMapLine,
}

/// One line of `/proc/<pid>/maps`.
#[derive(Debug, Clone)]
pub struct MemoryMap {
    pub start_addr: u64,
    pub end_addr: u64,
    pub permissions: String,
    pub offset: u64,
    pub device: String,
    pub inode: u64,
    pub pathname: Option<String>,
}

/// A socket owned by a process.
#[derive(Debug, Clone)]
pub struct SocketInfo {
    pub local_addr: String,
    pub remote_addr: Option<String>,
    pub state: String,
    pub socket_type: String,
}

/// Reads `/proc` reports and analyses how processes depend on each other.
pub struct DependencyAnalyzer {
    pub proc_path: String,
}

/// Text of `a.b.c.d:port` for a little-endian IPv4 number and a port.
pub open spec fn dotted_address(ip: nat, port: nat) -> Seq<char> {
    dec_digits(ip % 256) + seq!['.'] + dec_digits((ip / 256) % 256) + seq!['.'] + dec_digits(
        (ip / 65536) % 256,
    ) + seq!['.'] + dec_digits((ip / 16777216) % 256) + seq![':'] + dec_digits(port)
}

/// What `parse_address` gives for the text `a` of a `/proc/net` address:
/// `None` for an error, else the text it returns.
pub open spec fn address_text(a: Seq<char>) -> Option<Seq<char>> {
    let p = pieces(a, ':');
    if p.len() != 2 || utf8_len(p[0]) != 8 {
        Some(a)
    } else {
        match parse_unsigned(p[0], 16, u32::MAX as nat) {
            None => None,
            Some(ip) => match parse_unsigned(p[1], 16, u16::MAX as nat) {
                None => None,
                Some(port) => Some(dotted_address(ip, port)),
            },
        }
    }
}

/// Name of a TCP state number from `/proc/net/tcp`.
pub open spec fn socket_state_name(n: nat) -> Seq<char> {
    if n == 1 {
        seq!['E', 'S', 'T', 'A', 'B', 'L', 'I', 'S', 'H', 'E', 'D']
    } else if n == 2 {
        seq!['S', 'Y', 'N', '_', 'S', 'E', 'N', 'T']
    } else if n == 3 {
        seq!['S', 'Y', 'N', '_', 'R', 'E', 'C', 'V']
    } else if n == 4 {
        seq!['F', 'I', 'N', '_', 'W', 'A', 'I', 'T', '1']
    } else if n == 5 {
        seq!['F', 'I', 'N', '_', 'W', 'A', 'I', 'T', '2']
    } else if n == 6 {
        seq!['T', 'I', 'M', 'E', '_', 'W', 'A', 'I', 'T']
    } else if n == 7 {
        seq!['C', 'L', 'O', 'S', 'E']
    } else if n == 8 {
        seq!['C', 'L', 'O', 'S', 'E', '_', 'W', 'A', 'I', 'T']
    } else if n == 9 {
        seq!['L', 'A', 'S', 'T', '_', 'A', 'C', 'K']
    } else if n == 10 {
        seq!['L', 'I', 'S', 'T', 'E', 'N']
    } else if n == 11 {
        seq!['C', 'L', 'O', 'S', 'I', 'N', 'G']
    } else {
        seq!['U', 'N', 'K', 'N', 'O', 'W', 'N']
    }
}

/// A `String` holding exactly the characters of `chars`.
fn string_from(chars: &[char]) -> (s: String)
    ensures
        s@ == chars@,
{
    string_of_all(chars)
}

impl DependencyAnalyzer {
    /// An analyzer that reads from `/proc`.
    pub fn new() -> (r: Self)
        ensures
            r.proc_path@ == seq!['/', 'p', 'r', 'o', 'c'],
    {
        let mut p = String::new();
        push_char(&mut p, '/');
        push_char(&mut p, 'p');
        push_char(&mut p, 'r');
        push_char(&mut p, 'o');
        push_char(&mut p, 'c');
        DependencyAnalyzer { proc_path: p }
    }

    /// Text of a `/proc/net` address `hex_ip:hex_port`; an IPv4 address of eight
    /// hexadecimal digits becomes `a.b.c.d:port`, any other form is returned as it is.
    pub fn parse_address(&self, addr_str: &str) -> (r: Result<String, DependencyError>)
        ensures
            match address_text(addr_str@) {
                None => r == Err::<String, DependencyError>(DependencyError::InvalidHexNumber),
                Some(t) => r is Ok && r->Ok_0@ == t,
            },
    {
        let v = chars_of(addr_str);
        let parts = split_char(&v, ':');
        if parts.len() != 2 {
            return Ok(string_from(&v));
        }
        assert(views_of(parts@)[0] == parts@[0]@);
        assert(views_of(parts@)[1] == parts@[1]@);
        let ip_hex = &parts[0];
        let port_hex = &parts[1];
        match utf8_len_upto(ip_hex, 8) {
            Some(n) if n == 8 => {},
            _ => {
                return Ok(string_from(&v));
            },
        }
        let ip = match parse_uint(ip_hex, 16, 0xffff_ffff) {
            Some(x) => x,
            None => {
                return Err(DependencyError::InvalidHexNumber);
            },
        };
        let port = match parse_uint(port_hex, 16, 0xffff) {
            Some(x) => x,
            None => {
                return Err(DependencyError::InvalidHexNumber);
            },
        };
        let mut s = String::new();
        push_dec(&mut s, ip % 256);
        push_char(&mut s, '.');
        push_dec(&mut s, (ip / 256) % 256);
        push_char(&mut s, '.');
        push_dec(&mut s, (ip / 65536) % 256);
        push_char(&mut s, '.');
        push_dec(&mut s, (ip / 16777216) % 256);
        push_char(&mut s, ':');
        push_dec(&mut s, port);
        Ok(s)
    }

    /// Name of the TCP state written in hexadecimal in `/proc/net/tcp`.
    pub fn parse_socket_state(&self, state_hex: &str) -> (r: Result<String, DependencyError>)
        ensures
            match parse_unsigned(state_hex@, 16, u8::MAX as nat) {
                None => r == Err::<String, DependencyError>(DependencyError::InvalidHexNumber),
                Some(n) => r is Ok && r->Ok_0@ == socket_state_name(n),
            },
    {
        let v = chars_of(state_hex);
        let n = match parse_uint(&v, 16, 0xff) {
            Some(x) => x,
            None => {
                return Err(DependencyError::InvalidHexNumber);
            },
        };
        let name: &[char] = if n == 1 {
            &['E', 'S', 'T', 'A', 'B', 'L', 'I', 'S', 'H', 'E', 'D']
        } else if n == 2 {
            &['S', 'Y', 'N', '_', 'S', 'E', 'N', 'T']
        } else if n == 3 {
            &['S', 'Y', 'N', '_', 'R', 'E', 'C', 'V']
        } else if n == 4 {
            &['F', 'I', 'N', '_', 'W', 'A', 'I', 'T', '1']
        } else if n == 5 {
            &['F', 'I', 'N', '_', 'W', 'A', 'I', 'T', '2']
        } else if n == 6 {
            &['T', 'I', 'M', 'E', '_', 'W', 'A', 'I', 'T']
        } else if n == 7 {
            &['C', 'L', 'O', 'S', 'E']
        } else if n == 8 {
            &['C', 'L', 'O', 'S', 'E', '_', 'W', 'A', 'I', 'T']
        } else if n == 9 {
            &['L', 'A', 'S', 'T', '_', 'A', 'C', 'K']
        } else if n == 10 {
            &['L', 'I', 'S', 'T', 'E', 'N']
        } else if n == 11 {
            &['C', 'L', 'O', 'S', 'I', 'N', 'G']
        } else {
            &['U', 'N', 'K', 'N', 'O', 'W', 'N']
        };
        Ok(string_from(name))
    }
}


/// `s` names a shared object: it ends in `.so` or holds `.so.`.
pub open spec fn is_so_path(s: Seq<char>) -> bool {
    ends_with(s, seq!['.', 's', 'o']) || contains(s, seq!['.', 's', 'o', '.'])
}

/// The shared-object paths named in the sixth field of the lines `ls` of a maps report,
/// one per such line, in order.
pub open spec fn so_candidates(ls: Seq<Seq<char>>) -> Seq<Seq<char>>
    decreases ls.len(),
{
    if ls.len() == 0 {
        seq![]
    } else {
        let w = words(ls.last());
        let prev = so_candidates(ls.drop_last());
        if w.len() >= 6 && is_so_path(w[5]) {
            prev.push(w[5])
        } else {
            prev
        }
    }
}

/// The shared libraries a maps report names, each once, in order of first mention.
pub open spec fn shared_libraries_in(content: Seq<char>) -> Seq<Seq<char>> {
    dedup(so_candidates(lines(content)))
}

/// The address fields of a maps line split at `-`.
pub open spec fn map_addr_parts(line: Seq<char>) -> Seq<Seq<char>> {
    pieces(words(line)[0], '-')
}

/// Reading the maps line `line` would index past the address range: the first field
/// parses as a start address but has no `-`.
pub open spec fn map_line_panics(line: Seq<char>) -> bool {
    words(line).len() >= 5 && parse_unsigned(map_addr_parts(line)[0], 16, u64::MAX as nat) is Some
        && map_addr_parts(line).len() < 2
}

/// The error, if any, that reading the maps line `line` reports.
pub open spec fn map_line_error(line: Seq<char>) -> Option<DependencyError> {
    let w = words(line);
    if w.len() < 5 {
        Some(DependencyError::InvalidMemoryMapLine)
    } else if parse_unsigned(map_addr_parts(line)[0], 16, u64::MAX as nat) is None {
        Some(DependencyError::InvalidHexNumber)
    } else if parse_unsigned(map_addr_parts(line)[1], 16, u64::MAX as nat) is None {
        Some(DependencyError::InvalidHexNumber)
    } else if parse_unsigned(w[2], 16, u64::MAX as nat) is None {
        Some(DependencyError::InvalidHexNumber)
    } else if parse_unsigned(w[4], 10, u64::MAX as nat) is None {
        Some(DependencyError::InvalidDecimalNumber)
    } else {
        None
    }
}

/// `m` is what the maps line `line` describes.
pub open spec fn map_line_describes(line: Seq<char>, m: MemoryMap) -> bool {
    let w = words(line);
    &&& parse_unsigned(map_addr_parts(line)[0], 16, u64::MAX as nat) == Some(m.start_addr as nat)
    &&& parse_unsigned(map_addr_parts(line)[1], 16, u64::MAX as nat) == Some(m.end_addr as nat)
    &&& m.permissions@ == w[1]
    &&& parse_unsigned(w[2], 16, u64::MAX as nat) == Some(m.offset as nat)
    &&& m.device@ == w[3]
    &&& parse_unsigned(w[4], 10, u64::MAX as nat) == Some(m.inode as nat)
    &&& match m.pathname {
        Some(p) => w.len() > 5 && p@ == w[5],
        None => w.len() <= 5,
    }
}

/// The memory maps that the lines `ls` describe, skipping lines that do not read.
pub open spec fn maps_described(ls: Seq<Seq<char>>, ms: Seq<MemoryMap>) -> bool
    decreases ls.len(),
{
    if ls.len() == 0 {
        ms.len() == 0
    } else if map_line_error(ls.last()) is Some {
        maps_described(ls.drop_last(), ms)
    } else {
        ms.len() > 0 && map_line_describes(ls.last(), ms.last()) && maps_described(
            ls.drop_last(),
            ms.drop_last(),
        )
    }
}

fn parse_hex_u64(v: &[char]) -> (r: Result<u64, DependencyError>)
    ensures
        match parse_unsigned(v@, 16, u64::MAX as nat) {
            Some(x) => r == Ok::<u64, DependencyError>(x as u64),
            None => r == Err::<u64, DependencyError>(DependencyError::InvalidHexNumber),
        },
{
    match parse_uint(v, 16, u64::MAX) {
        Some(x) => Ok(x),
        None => Err(DependencyError::InvalidHexNumber),
    }
}

impl DependencyAnalyzer {
    /// Reads one line of `/proc/<pid>/maps`.
    pub fn parse_memory_map_line(&self, line: &str) -> (r: Result<MemoryMap, DependencyError>)
        requires
            !map_line_panics(line@),
        ensures
            match map_line_error(line@) {
                Some(e) => r == Err::<MemoryMap, DependencyError>(e),
                None => r is Ok && map_line_describes(line@, r->Ok_0),
            },
    {
        let v = chars_of(line);
        let parts = split_words(&v);
        if parts.len() < 5 {
            return Err(DependencyError::InvalidMemoryMapLine);
        }
        assert(forall|i: int| 0 <= i < parts@.len() ==> views_of(parts@)[i] == #[trigger] parts@[i]@);
        let addr_parts = split_char(&parts[0], '-');
        assert(forall|i: int| 0 <= i < addr_parts@.len() ==> views_of(addr_parts@)[i] == #[trigger] addr_parts@[i]@);
        let start_addr = parse_hex_u64(&addr_parts[0])?;
        let end_addr = parse_hex_u64(&addr_parts[1])?;
        let permissions = string_from(&parts[1]);
        let offset = parse_hex_u64(&parts[2])?;
        let device = string_from(&parts[3]);
        let inode = match parse_uint(&parts[4], 10, u64::MAX) {
            Some(x) => x,
            None => {
                return Err(DependencyError::InvalidDecimalNumber);
            },
        };
        let pathname = if parts.len() > 5 {
            Some(string_from(&parts[5]))
        } else {
            None
        };
        Ok(MemoryMap { start_addr, end_addr, permissions, offset, device, inode, pathname })
    }

    /// The memory maps of a `/proc/<pid>/maps` report, skipping lines that do not read.
    pub fn memory_maps_from(&self, content: &str) -> (r: Vec<MemoryMap>)
        requires
            forall|i: int| 0 <= i < lines(content@).len() ==> !map_line_panics(#[trigger] lines(content@)[i]),
        ensures
            maps_described(lines(content@), r@),
    {
        let v = chars_of(content);
        let ls = split_lines(&v);
        let mut maps: Vec<MemoryMap> = Vec::new();
        let mut i: usize = 0;
        while i < ls.len()
            invariant
                i <= ls@.len(),
                views_of(ls@) == lines(content@),
                forall|k: int| 0 <= k < lines(content@).len() ==> !map_line_panics(#[trigger] lines(content@)[k]),
                maps_described(views_of(ls@).take(i as int), maps@),
            decreases ls.len() - i,
        {
            assert(views_of(ls@)[i as int] == ls@[i as int]@);
            assert(views_of(ls@).take(i + 1).drop_last() == views_of(ls@).take(i as int));
            let line = string_from(&ls[i]);
            let ghost old_maps = maps@;
            match self.parse_memory_map_line(line.as_str()) {
                Ok(m) => {
                    maps.push(m);
                    assert(maps@.drop_last() == old_maps);
                },
                Err(_) => {},
            }
            i = i + 1;
        }
        assert(views_of(ls@).take(i as int) == views_of(ls@));
        maps
    }

    /// The shared libraries a `/proc/<pid>/maps` report names, each once, in order
    /// of first mention.
    pub fn shared_libraries_from(&self, content: &str) -> (r: Vec<String>)
        ensures
            str_views(r@) == shared_libraries_in(content@),
    {
        let v = chars_of(content);
        let ls = split_lines(&v);
        let mut libs: Vec<String> = Vec::new();
        let mut i: usize = 0;
        let so: [char; 3] = ['.', 's', 'o'];
        let so_dot: [char; 4] = ['.', 's', 'o', '.'];
        assert(str_views(libs@) =~= dedup(so_candidates(views_of(ls@).take(0))));
        while i < ls.len()
            invariant
                i <= ls@.len(),
                views_of(ls@) == lines(content@),
                so@ == seq!['.', 's', 'o'],
                so_dot@ == seq!['.', 's', 'o', '.'],
                str_views(libs@) == dedup(so_candidates(views_of(ls@).take(i as int))),
            decreases ls.len() - i,
        {
            assert(views_of(ls@)[i as int] == ls@[i as int]@);
            assert(views_of(ls@).take(i + 1).drop_last() == views_of(ls@).take(i as int));
            assert(views_of(ls@).take(i + 1).last() == ls@[i as int]@);
            let ghost prev = so_candidates(views_of(ls@).take(i as int));
            let parts = split_words(&ls[i]);
            if parts.len() >= 6 {
                assert(views_of(parts@)[5] == parts@[5]@);
                if has_suffix(&parts[5], &so) || has_sub(&parts[5], &so_dot) {
                    let p = string_from(&parts[5]);
                    assert(so_candidates(views_of(ls@).take(i + 1)) == prev.push(p@));
                    assert(prev.push(p@).drop_last() == prev);
                    push_unique(&mut libs, p);
                } else {
                    assert(so_candidates(views_of(ls@).take(i + 1)) == prev);
                }
            } else {
                assert(so_candidates(views_of(ls@).take(i + 1)) == prev);
            }
            i = i + 1;
        }
        assert(views_of(ls@).take(i as int) == views_of(ls@));
        libs
    }
}


/// What a socket reads as: local address, remote address, state and kind.
pub type SocketView = (Seq<char>, Option<Seq<char>>, Seq<char>, Seq<char>);

/// The view of a socket record.
pub open spec fn socket_view(s: SocketInfo) -> SocketView {
    (s.local_addr@, match s.remote_addr {
        Some(r) => Some(r@),
        None => None,
    }, s.state@, s.socket_type@)
}

/// The views of a sequence of socket records.
pub open spec fn socket_views(s: Seq<SocketInfo>) -> Seq<SocketView> {
    Seq::new(s.len(), |i: int| socket_view(s[i]))
}

/// A file-descriptor link target that names a socket whose inode text holds `inode`.
pub open spec fn names_socket(target: Seq<char>, inode: nat) -> bool {
    starts_with(target, seq!['s', 'o', 'c', 'k', 'e', 't', ':', '[']) && contains(target, dec_digits(inode))
}

/// Some link target of a process's file descriptors names the socket `inode`.
pub open spec fn owns_socket(targets: Seq<Seq<char>>, inode: nat) -> bool {
    exists|i: int| 0 <= i < targets.len() && names_socket(#[trigger] targets[i], inode)
}

/// The text of an unconnected remote address in `/proc/net/tcp`.
pub open spec fn unconnected_address() -> Seq<char> {
    seq!['0', '0', '0', '0', '0', '0', '0', '0', ':', '0', '0', '0', '0']
}

/// A socket read from a TCP table is a TCP socket and one read from a UDP table a UDP
/// socket; reading the same line from the other kind of table gives the same socket
/// but for its kind.
pub proof fn lemma_socket_kind(line: Seq<char>, is_tcp: bool, targets: Seq<Seq<char>>)
    ensures
        socket_line(line, is_tcp, targets) matches Some(Ok(t)) ==> t.3 == (if is_tcp {
            seq!['T', 'C', 'P']
        } else {
            seq!['U', 'D', 'P']
        }),
        socket_line(line, true, targets) is Some <==> socket_line(line, false, targets) is Some,
        socket_line(line, true, targets) matches Some(Ok(t)) ==> socket_line(line, false, targets) matches Some(Ok(u))
            && t.0 == u.0 && t.1 == u.1 && t.2 == u.2 && t.3 == seq!['T', 'C', 'P'] && u.3 == seq!['U', 'D', 'P'],
{
}

/// What one line of a `/proc/net` socket table gives for a process that owns the
/// sockets `targets` names: `None` when the line is skipped.
pub open spec fn socket_line(line: Seq<char>, is_tcp: bool, targets: Seq<Seq<char>>) -> Option<Result<SocketView, DependencyError>> {
    let w = words(line);
    if w.len() < 10 {
        None
    } else {
        match parse_unsigned(w[9], 10, u32::MAX as nat) {
            None => None,
            Some(inode) => if !owns_socket(targets, inode) {
                None
            } else {
                match address_text(w[1]) {
                    None => Some(Err(DependencyError::InvalidHexNumber)),
                    Some(local) => {
                        let remote: Option<Option<Seq<char>>> = if w[2] != unconnected_address() {
                            match address_text(w[2]) {
                                None => None,
                                Some(r) => Some(Some(r)),
                            }
                        } else {
                            Some(None)
                        };
                        match remote {
                            None => Some(Err(DependencyError::InvalidHexNumber)),
                            Some(rem) => match parse_unsigned(w[3], 16, u8::MAX as nat) {
                                None => Some(Err(DependencyError::InvalidHexNumber)),
                                Some(st) => Some(Ok((local, rem, socket_state_name(st), if is_tcp {
                                    seq!['T', 'C', 'P']
                                } else {
                                    seq!['U', 'D', 'P']
                                }))),
                            },
                        }
                    },
                }
            },
        }
    }
}

/// The sockets that the lines `ls` of a socket table give, or the first error.
pub open spec fn socket_lines(ls: Seq<Seq<char>>, is_tcp: bool, targets: Seq<Seq<char>>) -> Result<Seq<SocketView>, DependencyError>
    decreases ls.len(),
{
    if ls.len() == 0 {
        Ok(seq![])
    } else {
        let rest = socket_lines(ls.drop_first(), is_tcp, targets);
        match socket_line(ls[0], is_tcp, targets) {
            None => rest,
            Some(Err(e)) => Err(e),
            Some(Ok(t)) => match rest {
                Ok(r) => Ok(seq![t] + r),
                Err(e) => Err(e),
            },
        }
    }
}

/// `acc` followed by what `r` holds, or the error of `r`.
pub open spec fn prepend_ok(acc: Seq<SocketView>, r: Result<Seq<SocketView>, DependencyError>) -> Result<Seq<SocketView>, DependencyError> {
    match r {
        Ok(x) => Ok(acc + x),
        Err(e) => Err(e),
    }
}

proof fn lemma_socket_lines_step(acc: Seq<SocketView>, rest: Seq<Seq<char>>, is_tcp: bool, targets: Seq<Seq<char>>)
    requires
        rest.len() > 0,
    ensures
        match socket_line(rest[0], is_tcp, targets) {
            None => prepend_ok(acc, socket_lines(rest.drop_first(), is_tcp, targets)) == prepend_ok(
                acc,
                socket_lines(rest, is_tcp, targets),
            ),
            Some(Err(e)) => prepend_ok(acc, socket_lines(rest, is_tcp, targets)) == Err::<Seq<SocketView>, DependencyError>(e),
            Some(Ok(t)) => prepend_ok(acc.push(t), socket_lines(rest.drop_first(), is_tcp, targets)) == prepend_ok(
                acc,
                socket_lines(rest, is_tcp, targets),
            ),
        },
{
    match socket_line(rest[0], is_tcp, targets) {
        Some(Ok(t)) => {
            match socket_lines(rest.drop_first(), is_tcp, targets) {
                Ok(x) => {
                    assert(acc + (seq![t] + x) == acc.push(t) + x);
                },
                Err(e) => {},
            }
        },
        _ => {},
    }
}

impl DependencyAnalyzer {
    /// Whether one of a process's file-descriptor link targets names the socket `inode`.
    pub fn socket_belongs_to_process(&self, fd_targets: &Vec<String>, inode: u32) -> (b: bool)
        ensures
            b == owns_socket(str_views(fd_targets@), inode as nat),
    {
        let prefix: [char; 8] = ['s', 'o', 'c', 'k', 'e', 't', ':', '['];
        let digits = chars_of(dec_string(inode as u64).as_str());
        let mut i: usize = 0;
        while i < fd_targets.len()
            invariant
                i <= fd_targets@.len(),
                prefix@ == seq!['s', 'o', 'c', 'k', 'e', 't', ':', '['],
                digits@ == dec_digits(inode as nat),
                forall|j: int| 0 <= j < i ==> !names_socket(#[trigger] str_views(fd_targets@)[j], inode as nat),
            decreases fd_targets.len() - i,
        {
            assert(str_views(fd_targets@)[i as int] == fd_targets@[i as int]@);
            let t = chars_of(fd_targets[i].as_str());
            if has_prefix(&t, &prefix) && has_sub(&t, &digits) {
                return true;
            }
            i = i + 1;
        }
        false
    }

    /// What one line of a socket table gives for a process whose file descriptors
    /// link to `fd_targets`: `None` when the line is skipped.
    pub fn socket_from_line(&self, line: &[char], is_tcp: bool, fd_targets: &Vec<String>) -> (r: Option<Result<SocketInfo, DependencyError>>)
        ensures
            match socket_line(line@, is_tcp, str_views(fd_targets@)) {
                None => r is None,
                Some(Err(e)) => r == Some(Err::<SocketInfo, DependencyError>(e)),
                Some(Ok(t)) => r is Some && r->0 is Ok && socket_view(r->0->Ok_0) == t,
            },
            r matches Some(Ok(sock)) ==> sock.socket_type@ == (if is_tcp {
                seq!['T', 'C', 'P']
            } else {
                seq!['U', 'D', 'P']
            }),
    {
        let unconnected: [char; 13] = ['0', '0', '0', '0', '0', '0', '0', '0', ':', '0', '0', '0', '0'];
        assert(unconnected@ == unconnected_address());
        let parts = split_words(line);
        assert(forall|k: int| 0 <= k < parts@.len() ==> views_of(parts@)[k] == #[trigger] parts@[k]@);
        if parts.len() < 10 {
            return None;
        }
        let inode = match parse_uint(&parts[9], 10, u32::MAX as u64) {
            Some(x) => x,
            None => {
                return None;
            },
        };
        if !self.socket_belongs_to_process(fd_targets, inode as u32) {
            return None;
        }
        let local_text = string_from(&parts[1]);
        let local_addr = match self.parse_address(local_text.as_str()) {
            Ok(a) => a,
            Err(e) => {
                return Some(Err(e));
            },
        };
        let remote_addr = if !chars_eq(&parts[2], &unconnected) {
            let remote_text = string_from(&parts[2]);
            match self.parse_address(remote_text.as_str()) {
                Ok(a) => Some(a),
                Err(e) => {
                    return Some(Err(e));
                },
            }
        } else {
            None
        };
        let state_text = string_from(&parts[3]);
        let state = match self.parse_socket_state(state_text.as_str()) {
            Ok(a) => a,
            Err(e) => {
                return Some(Err(e));
            },
        };
        let mut socket_type = String::new();
        if is_tcp {
            push_char(&mut socket_type, 'T');
            push_char(&mut socket_type, 'C');
            push_char(&mut socket_type, 'P');
        } else {
            push_char(&mut socket_type, 'U');
            push_char(&mut socket_type, 'D');
            push_char(&mut socket_type, 'P');
        }
        Some(Ok(SocketInfo { local_addr, remote_addr, state, socket_type }))
    }

    #[verifier::rlimit(40)]
    #[verifier::spinoff_prover]
    /// The sockets that a `/proc/net` socket table (`content`, read from the file named
    /// `socket_file`) lists as owned by a process whose file descriptors link to `fd_targets`.
    pub fn parse_socket_table(&self, content: &str, socket_file: &str, fd_targets: &Vec<String>) -> (r: Result<Vec<SocketInfo>, DependencyError>)
        ensures
            lines(content@).len() == 0 ==> r is Ok && r->Ok_0@.len() == 0,
            lines(content@).len() > 0 ==> match socket_lines(
                lines(content@).drop_first(),
                contains(socket_file@, seq!['t', 'c', 'p']),
                str_views(fd_targets@),
            ) {
                Ok(x) => r is Ok && socket_views(r->Ok_0@) == x,
                Err(e) => r == Err::<Vec<SocketInfo>, DependencyError>(e),
            },
    {
        let v = chars_of(content);
        let ls = split_lines(&v);
        let mut out: Vec<SocketInfo> = Vec::new();
        if ls.len() == 0 {
            return Ok(out);
        }
        let tcp: [char; 3] = ['t', 'c', 'p'];
        let file_chars = chars_of(socket_file);
        let is_tcp = has_sub(&file_chars, &tcp);
        let ghost targets = str_views(fd_targets@);
        let ghost all = views_of(ls@).drop_first();
        let mut i: usize = 1;
        assert(all.skip(0) == all);
        assert(socket_views(out@) =~= Seq::<SocketView>::empty());
        assert(prepend_ok(Seq::<SocketView>::empty(), socket_lines(all, is_tcp, targets)) == socket_lines(all, is_tcp, targets)) by {
            match socket_lines(all, is_tcp, targets) {
                Ok(x) => { assert(Seq::<SocketView>::empty() + x == x); },
                Err(e) => {},
            }
        }
        while i < ls.len()
            invariant
                1 <= i <= ls@.len(),
                views_of(ls@) == lines(content@),
                all == views_of(ls@).drop_first(),
                targets == str_views(fd_targets@),
                is_tcp == contains(socket_file@, seq!['t', 'c', 'p']),
                prepend_ok(socket_views(out@), socket_lines(all.skip(i - 1), is_tcp, targets)) == socket_lines(all, is_tcp, targets),
            decreases ls.len() - i,
        {
            let ghost rest = all.skip(i - 1);
            assert(rest[0] == ls@[i as int]@);
            assert(rest.drop_first() == all.skip(i as int));
            proof {
                lemma_socket_lines_step(socket_views(out@), rest, is_tcp, targets);
            }
            match self.socket_from_line(&ls[i], is_tcp, fd_targets) {
                None => {},
                Some(Err(e)) => {
                    return Err(e);
                },
                Some(Ok(si)) => {
                    let ghost old_views = socket_views(out@);
                    out.push(si);
                    assert(socket_views(out@) =~= old_views.push(socket_view(si)));
                },
            }
            i = i + 1;
        }
        assert(all.skip(i - 1) == Seq::<Seq<char>>::empty());
        assert(socket_views(out@) + Seq::<SocketView>::empty() == socket_views(out@));
        Ok(out)
    }
}


/// A process as a node of the dependency graph.
#[derive(Debug)]
pub struct ProcessNode {
    pub pid: u32,
    pub name: String,
    pub ppid: Option<u32>,
    pub children: Vec<u32>,
    pub shared_libs: Vec<String>,
    pub memory_maps: Vec<MemoryMap>,
    pub open_files: Vec<String>,
    pub sockets: Vec<SocketInfo>,
    pub dependency_level: u32,
}

/// A shared library and the processes that map it.
#[derive(Debug)]
pub struct SharedLibrary {
    pub path: String,
    pub size: u64,
    pub processes_using: Vec<u32>,
    pub version: Option<String>,
    pub is_system_lib: bool,
}

/// The processes reachable from a root through child links.
#[derive(Debug)]
pub struct DependencyChain {
    pub root_pid: u32,
    pub chain: Vec<u32>,
    pub depth: u32,
    pub shared_resources: Vec<String>,
}

/// Two processes that share enough libraries to be suspected of depending on each other.
#[derive(Debug)]
pub struct CircularDependency {
    pub processes: Vec<u32>,
    pub dependency_type: String,
    pub resource: String,
}

/// The dependency graph of the processes of a system; a process appears at most once
/// in `processes` and a library at most once in `shared_libraries` (see `wf`).
#[derive(Debug)]
pub struct ProcessDependencyGraph {
    pub processes: Vec<ProcessNode>,
    pub shared_libraries: Vec<SharedLibrary>,
    pub dependency_chains: Vec<DependencyChain>,
    pub circular_dependencies: Vec<CircularDependency>,
}

/// Index of the first node of `ns` with process id `pid`, or -1.
pub open spec fn first_node(ns: Seq<ProcessNode>, pid: u32) -> int {
    if exists|i: int| 0 <= i < ns.len() && ns[i].pid == pid && forall|j: int| 0 <= j < i ==> ns[j].pid != pid {
        choose|i: int| 0 <= i < ns.len() && ns[i].pid == pid && forall|j: int| 0 <= j < i ==> ns[j].pid != pid
    } else {
        -1
    }
}

/// Index of the first library of `ls` with path `path`, or -1.
pub open spec fn first_lib(ls: Seq<SharedLibrary>, path: Seq<char>) -> int {
    if exists|i: int| 0 <= i < ls.len() && ls[i].path@ == path && forall|j: int| 0 <= j < i ==> ls[j].path@ != path {
        choose|i: int| 0 <= i < ls.len() && ls[i].path@ == path && forall|j: int| 0 <= j < i ==> ls[j].path@ != path
    } else {
        -1
    }
}

impl ProcessDependencyGraph {
    /// No process id and no library path occurs twice.
    pub open spec fn wf(&self) -> bool {
        &&& forall|i: int, j: int| 0 <= i < j < self.processes@.len() ==> self.processes@[i].pid != self.processes@[j].pid
        &&& forall|i: int, j: int| 0 <= i < j < self.shared_libraries@.len() ==> self.shared_libraries@[i].path@ != self.shared_libraries@[j].path@
    }
}

/// The position of the node with process id `pid`, if any.
pub fn find_node(ns: &Vec<ProcessNode>, pid: u32) -> (r: Option<usize>)
    ensures
        match r {
            Some(i) => i as int == first_node(ns@, pid) && i < ns@.len(),
            None => first_node(ns@, pid) == -1 && forall|j: int| 0 <= j < ns@.len() ==> ns@[j].pid != pid,
        },
{
    let mut i: usize = 0;
    while i < ns.len()
        invariant
            i <= ns@.len(),
            forall|j: int| 0 <= j < i ==> ns@[j].pid != pid,
        decreases ns.len() - i,
    {
        if ns[i].pid == pid {
            proof {
                let k = first_node(ns@, pid);
                assert(0 <= k < ns@.len() && ns@[k].pid == pid && forall|j: int| 0 <= j < k ==> ns@[j].pid != pid);
                if k < i {
                } else if k > i {
                    assert(ns@[i as int].pid == pid);
                }
            }
            return Some(i);
        }
        i = i + 1;
    }
    None
}

/// The position of the library with path `path`, if any.
pub fn find_lib(ls: &Vec<SharedLibrary>, path: &String) -> (r: Option<usize>)
    ensures
        match r {
            Some(i) => i as int == first_lib(ls@, path@) && i < ls@.len(),
            None => first_lib(ls@, path@) == -1 && forall|j: int| 0 <= j < ls@.len() ==> ls@[j].path@ != path@,
        },
{
    let mut i: usize = 0;
    while i < ls.len()
        invariant
            i <= ls@.len(),
            forall|j: int| 0 <= j < i ==> ls@[j].path@ != path@,
        decreases ls.len() - i,
    {
        if ls[i].path == *path {
            proof {
                let k = first_lib(ls@, path@);
                assert(0 <= k < ls@.len() && ls@[k].path@ == path@ && forall|j: int| 0 <= j < k ==> ls@[j].path@ != path@);
                if k < i {
                } else if k > i {
                    assert(ls@[i as int].path@ == path@);
                }
            }
            return Some(i);
        }
        i = i + 1;
    }
    None
}

/// The processes that map the library `path` (none when it is not in `ls`).
pub open spec fn lib_users(ls: Seq<SharedLibrary>, path: Seq<char>) -> Seq<u32> {
    let k = first_lib(ls, path);
    if k < 0 {
        seq![]
    } else {
        ls[k].processes_using@
    }
}

/// The users of each library of `paths` in turn, one after the other.
pub open spec fn users_of_all(ls: Seq<SharedLibrary>, paths: Seq<Seq<char>>) -> Seq<u32>
    decreases paths.len(),
{
    if paths.len() == 0 {
        seq![]
    } else {
        users_of_all(ls, paths.drop_last()) + lib_users(ls, paths.last())
    }
}

/// `acc` extended by each element of `xs` that is not `pid` and not yet present.
pub open spec fn add_new(acc: Seq<u32>, xs: Seq<u32>, pid: u32) -> Seq<u32>
    decreases xs.len(),
{
    if xs.len() == 0 {
        acc
    } else {
        let a = add_new(acc, xs.drop_last(), pid);
        if xs.last() != pid && !a.contains(xs.last()) {
            a.push(xs.last())
        } else {
            a
        }
    }
}

/// What `get_process_dependencies` gives for `pid`: its children, then every other
/// process that maps one of its libraries, each once.
pub open spec fn process_dependencies(g: ProcessDependencyGraph, pid: u32) -> Option<Seq<u32>> {
    let k = first_node(g.processes@, pid);
    if k < 0 {
        None
    } else {
        let node = g.processes@[k];
        Some(add_new(node.children@, users_of_all(g.shared_libraries@, str_views(node.shared_libs@)), pid))
    }
}

pub proof fn lemma_add_new_contains(acc: Seq<u32>, xs: Seq<u32>, pid: u32)
    ensures
        forall|y: u32| add_new(acc, xs, pid).contains(y) <==> (acc.contains(y) || (xs.contains(y) && y != pid)),
        acc.no_duplicates() ==> add_new(acc, xs, pid).no_duplicates(),
        add_new(acc, xs, pid).len() >= acc.len(),
        add_new(acc, xs, pid).take(acc.len() as int) == acc,
    decreases xs.len(),
{
    if xs.len() > 0 {
        lemma_add_new_contains(acc, xs.drop_last(), pid);
        let a = add_new(acc, xs.drop_last(), pid);
        let x = xs.last();
        assert forall|y: u32| xs.contains(y) <==> (xs.drop_last().contains(y) || y == x) by {
            if xs.contains(y) {
                let i = choose|i: int| 0 <= i < xs.len() && xs[i] == y;
                if i < xs.len() - 1 {
                    assert(xs.drop_last()[i] == y);
                }
            }
            if xs.drop_last().contains(y) {
                let i = choose|i: int| 0 <= i < xs.drop_last().len() && xs.drop_last()[i] == y;
                assert(xs[i] == y);
            }
        }
        if x != pid && !a.contains(x) {
            assert forall|y: u32| a.push(x).contains(y) <==> (a.contains(y) || y == x) by {
                if a.push(x).contains(y) {
                    let i = choose|i: int| 0 <= i < a.push(x).len() && a.push(x)[i] == y;
                    if i < a.len() {
                        assert(a[i] == y);
                    }
                }
                if a.contains(y) {
                    let i = choose|i: int| 0 <= i < a.len() && a[i] == y;
                    assert(a.push(x)[i] == y);
                }
                if y == x {
                    assert(a.push(x)[a.len() as int] == y);
                }
            }
            assert(a.push(x).take(acc.len() as int) == a.take(acc.len() as int));
        }
    }
}

impl DependencyAnalyzer {
    /// The processes affected by `pid`: its children, then every other process that
    /// maps one of its libraries, each once; `None` when `pid` is not in the graph.
    pub fn get_process_dependencies(&self, pid: u32, graph: &ProcessDependencyGraph) -> (r: Option<Vec<u32>>)
        ensures
            match process_dependencies(*graph, pid) {
                None => r is None,
                Some(d) => r is Some && r->0@ == d,
            },
    {
        let k = match find_node(&graph.processes, pid) {
            Some(k) => k,
            None => {
                return None;
            },
        };
        let node = &graph.processes[k];
        let ghost ls = graph.shared_libraries@;
        let ghost paths = str_views(node.shared_libs@);
        let mut deps: Vec<u32> = node.children.clone();
        let mut i: usize = 0;
        assert(users_of_all(ls, paths.take(0)) == Seq::<u32>::empty());
        while i < node.shared_libs.len()
            invariant
                node == graph.processes@[k as int],
                ls == graph.shared_libraries@,
                paths == str_views(node.shared_libs@),
                i <= paths.len(),
                deps@ == add_new(node.children@, users_of_all(ls, paths.take(i as int)), pid),
            decreases node.shared_libs.len() - i,
        {
            assert(paths.take(i + 1).drop_last() == paths.take(i as int));
            assert(paths.take(i + 1).last() == node.shared_libs@[i as int]@);
            let ghost before = users_of_all(ls, paths.take(i as int));
            match find_lib(&graph.shared_libraries, &node.shared_libs[i]) {
                Some(li) => {
                    let users = &graph.shared_libraries[li].processes_using;
                    let mut j: usize = 0;
                    assert(before + users@.take(0) == before);
                    while j < users.len()
                        invariant
                            users@ == lib_users(ls, paths[i as int]),
                            j <= users@.len(),
                            deps@ == add_new(node.children@, before + users@.take(j as int), pid),
                        decreases users.len() - j,
                    {
                        let other = users[j];
                        assert((before + users@.take(j + 1)).drop_last() == before + users@.take(j as int));
                        assert((before + users@.take(j + 1)).last() == other);
                        if other != pid && !contains_u32(&deps, other) {
                            deps.push(other);
                        }
                        j = j + 1;
                    }
                    assert(users@.take(j as int) == users@);
                },
                None => {
                    assert(before + lib_users(ls, paths[i as int]) == before);
                },
            }
            i = i + 1;
        }
        assert(paths.take(i as int) == paths);
        Some(deps)
    }

    /// How many processes `pid` affects (the count of its dependencies, 0 when it is
    /// not in the graph).
    pub fn get_dependency_impact(&self, pid: u32, graph: &ProcessDependencyGraph) -> (r: u32)
        ensures
            r == match process_dependencies(*graph, pid) {
                None => 0u32,
                Some(d) => d.len() as u32,
            },
    {
        match self.get_process_dependencies(pid, graph) {
            Some(deps) => deps.len() as u32,
            None => 0,
        }
    }
}

/// `get_process_dependencies` gives exactly the children of the process and every other
/// process that maps one of its libraries, and lists none of them twice when the
/// children list holds none twice.
pub proof fn lemma_dependencies_are_children_and_library_peers(g: ProcessDependencyGraph, pid: u32, y: u32)
    requires
        first_node(g.processes@, pid) >= 0,
    ensures
        ({
            let node = g.processes@[first_node(g.processes@, pid)];
            let d = process_dependencies(g, pid)->0;
            &&& d.contains(y) <==> (node.children@.contains(y) || (y != pid && users_of_all(
                g.shared_libraries@,
                str_views(node.shared_libs@),
            ).contains(y)))
            &&& node.children@.no_duplicates() ==> d.no_duplicates()
            &&& d.take(node.children@.len() as int) == node.children@
        }),
{
    let node = g.processes@[first_node(g.processes@, pid)];
    lemma_add_new_contains(node.children@, users_of_all(g.shared_libraries@, str_views(node.shared_libs@)), pid);
}


/// `c` is a child of the graph node of `p`.
pub open spec fn child_of(ns: Seq<ProcessNode>, p: u32, c: u32) -> bool {
    first_node(ns, p) >= 0 && ns[first_node(ns, p)].children@.contains(c)
}

/// Some process of `ps` has `c` as a child.
pub open spec fn parent_in(ns: Seq<ProcessNode>, ps: Seq<u32>, c: u32) -> bool {
    exists|j: int| 0 <= j < ps.len() && child_of(ns, ps[j], c)
}

/// `ch` lists, each once and starting with `root`, exactly the processes reachable from
/// `root` through child links: every later process is a child of an earlier one, and
/// every child of a listed process is listed.
pub open spec fn chain_from(ns: Seq<ProcessNode>, root: u32, ch: Seq<u32>) -> bool {
    &&& ch.len() > 0
    &&& ch[0] == root
    &&& ch.no_duplicates()
    &&& forall|k: int| 1 <= k < ch.len() ==> parent_in(ns, ch.take(k), #[trigger] ch[k])
    &&& forall|x: u32, c: u32| ch.contains(x) && #[trigger] child_of(ns, x, c) ==> ch.contains(c)
}

/// The libraries of the graph node of `p` (none when `p` is not in the graph).
pub open spec fn node_libs(ns: Seq<ProcessNode>, p: u32) -> Seq<Seq<char>> {
    if first_node(ns, p) < 0 {
        seq![]
    } else {
        str_views(ns[first_node(ns, p)].shared_libs@)
    }
}

/// The libraries of the processes of `ch`, process after process.
pub open spec fn libs_along(ns: Seq<ProcessNode>, ch: Seq<u32>) -> Seq<Seq<char>>
    decreases ch.len(),
{
    if ch.len() == 0 {
        seq![]
    } else {
        libs_along(ns, ch.drop_last()) + node_libs(ns, ch.last())
    }
}

/// Every child of every node, node after node.
pub open spec fn all_children(ns: Seq<ProcessNode>) -> Seq<u32>
    decreases ns.len(),
{
    if ns.len() == 0 {
        seq![]
    } else {
        all_children(ns.drop_last()) + ns.last().children@
    }
}

proof fn lemma_all_children_contains(ns: Seq<ProcessNode>, k: int, c: u32)
    requires
        0 <= k < ns.len(),
        ns[k].children@.contains(c),
    ensures
        all_children(ns).contains(c),
    decreases ns.len(),
{
    let a = all_children(ns.drop_last());
    let b = ns.last().children@;
    if k == ns.len() - 1 {
        let i = choose|i: int| 0 <= i < b.len() && b[i] == c;
        assert((a + b)[a.len() + i] == c);
    } else {
        assert(ns.drop_last()[k] == ns[k]);
        lemma_all_children_contains(ns.drop_last(), k, c);
        let i = choose|i: int| 0 <= i < a.len() && a[i] == c;
        assert((a + b)[i] == c);
    }
}

/// Holds of a process id that `ch` does not list.
pub open spec fn not_in(ch: Seq<u32>) -> spec_fn(u32) -> bool {
    |c: u32| !ch.contains(c)
}

/// The children of the graph node of `p` (none when `p` is not in the graph).
pub open spec fn node_children(ns: Seq<ProcessNode>, p: u32) -> Seq<u32> {
    if first_node(ns, p) < 0 {
        seq![]
    } else {
        ns[first_node(ns, p)].children@
    }
}

/// The state of the breadth-first walk: the queue, the position of its head, and the
/// processes listed so far.
pub type WalkView = (Seq<u32>, int, Seq<u32>);

/// One step of the walk: the process at the head is skipped when it is listed already;
/// otherwise it is listed and its children that are not listed yet join the queue, in
/// their order.
pub open spec fn walk_step(ns: Seq<ProcessNode>, st: WalkView) -> WalkView {
    let pid = st.0[st.1];
    if st.2.contains(pid) {
        (st.0, st.1 + 1, st.2)
    } else {
        let ch = st.2.push(pid);
        (st.0 + node_children(ns, pid).filter(not_in(ch)), st.1 + 1, ch)
    }
}

/// The walk from `root` after `f` steps; it stops when the queue runs out.
#[verifier::opaque]
pub open spec fn walk_after(ns: Seq<ProcessNode>, root: u32, f: nat) -> WalkView
    decreases f,
{
    if f == 0 {
        (seq![root], 0, seq![])
    } else {
        let st = walk_after(ns, root, (f - 1) as nat);
        if 0 <= st.1 < st.0.len() {
            walk_step(ns, st)
        } else {
            st
        }
    }
}

/// `ch` is the list of processes that the breadth-first walk from `root` holds when its
/// queue has run out.
pub open spec fn walk_order(ns: Seq<ProcessNode>, root: u32, ch: Seq<u32>) -> bool {
    exists|f: nat|
        #![trigger walk_after(ns, root, f)]
        walk_after(ns, root, f).1 >= walk_after(ns, root, f).0.len() && walk_after(ns, root, f).2 == ch
}

/// Once the queue of the walk has run out, further steps change nothing.
proof fn lemma_walk_stays(ns: Seq<ProcessNode>, root: u32, f: nat, g: nat)
    requires
        f <= g,
        walk_after(ns, root, f).1 >= walk_after(ns, root, f).0.len(),
    ensures
        walk_after(ns, root, g) == walk_after(ns, root, f),
    decreases g - f,
{
    if f < g {
        lemma_walk_stays(ns, root, f, (g - 1) as nat);
        reveal(walk_after);
    }
}

/// The breadth-first walk from a process has one result: two lists that are both
/// what the walk holds when its queue runs out are the same list.
pub proof fn lemma_walk_order_unique(ns: Seq<ProcessNode>, root: u32, a: Seq<u32>, b: Seq<u32>)
    requires
        walk_order(ns, root, a),
        walk_order(ns, root, b),
    ensures
        a == b,
{
    let fa = choose|f: nat| #![trigger walk_after(ns, root, f)]
        walk_after(ns, root, f).1 >= walk_after(ns, root, f).0.len() && walk_after(ns, root, f).2 == a;
    let fb = choose|f: nat| #![trigger walk_after(ns, root, f)]
        walk_after(ns, root, f).1 >= walk_after(ns, root, f).0.len() && walk_after(ns, root, f).2 == b;
    if fa <= fb {
        lemma_walk_stays(ns, root, fa, fb);
    } else {
        lemma_walk_stays(ns, root, fb, fa);
    }
}

/// Appends to `queue` each child of `node` that `chain` does not hold yet.
fn enqueue_children(node: &ProcessNode, chain: &Vec<u32>, queue: &mut Vec<u32>)
    ensures
        final(queue)@ == old(queue)@ + node.children@.filter(not_in(chain@)),
        final(queue)@.take(old(queue)@.len() as int) == old(queue)@,
        final(queue)@.len() >= old(queue)@.len(),
        forall|c: u32| #[trigger] node.children@.contains(c) ==> chain@.contains(c) || final(queue)@.skip(old(queue)@.len() as int).contains(c),
        forall|q: int| old(queue)@.len() <= q < final(queue)@.len() ==> node.children@.contains(#[trigger] final(queue)@[q]),
{
    let ghost q0 = queue@;
    let mut j: usize = 0;
    while j < node.children.len()
        invariant
            j <= node.children@.len(),
            queue@.take(q0.len() as int) == q0,
            queue@.len() >= q0.len(),
            forall|jj: int| 0 <= jj < j ==> chain@.contains(#[trigger] node.children@[jj]) || queue@.skip(q0.len() as int).contains(node.children@[jj]),
            forall|q: int| q0.len() <= q < queue@.len() ==> node.children@.contains(#[trigger] queue@[q]),
            queue@ == q0 + node.children@.take(j as int).filter(not_in(chain@)),
        decreases node.children.len() - j,
    {
        let c = node.children[j];
        let ghost before = queue@;
        proof {
            reveal(Seq::filter);
            assert(node.children@.take(j + 1).drop_last() == node.children@.take(j as int));
            assert(node.children@.take(j + 1).last() == c);
        }
        if !contains_u32(chain, c) {
            queue.push(c);
            assert(queue@.take(q0.len() as int) == before.take(q0.len() as int));
            assert(queue@.skip(q0.len() as int) == before.skip(q0.len() as int).push(c));
            assert forall|jj: int| 0 <= jj < j + 1 implies chain@.contains(#[trigger] node.children@[jj]) || queue@.skip(q0.len() as int).contains(node.children@[jj]) by {
                if jj < j {
                    if before.skip(q0.len() as int).contains(node.children@[jj]) {
                        let t = choose|t: int| 0 <= t < before.skip(q0.len() as int).len() && before.skip(q0.len() as int)[t] == node.children@[jj];
                        assert(queue@.skip(q0.len() as int)[t] == node.children@[jj]);
                    }
                } else {
                    assert(queue@.skip(q0.len() as int)[before.len() - q0.len()] == c);
                }
            }
            assert forall|q: int| q0.len() <= q < queue@.len() implies node.children@.contains(#[trigger] queue@[q]) by {
                if q == before.len() {
                    assert(node.children@[j as int] == c);
                } else {
                    assert(queue@[q] == before[q]);
                }
            }
        }
        j = j + 1;
    }
    assert forall|c: u32| #[trigger] node.children@.contains(c) implies chain@.contains(c) || queue@.skip(q0.len() as int).contains(c) by {
        let jj = choose|jj: int| 0 <= jj < node.children@.len() && node.children@[jj] == c;
    }
    assert(node.children@.take(j as int) == node.children@);
}

/// The proof obligations of one step of the breadth-first walk, gathered in one place.
pub open spec fn walk_state(ns: Seq<ProcessNode>, root: u32, u: Set<u32>, queue: Seq<u32>, head: int, chain: Seq<u32>) -> bool {
    &&& queue.len() >= 1
    &&& queue[0] == root
    &&& 0 <= head <= queue.len()
    &&& forall|q: int| 0 <= q < queue.len() ==> u.contains(#[trigger] queue[q])
    &&& chain.no_duplicates()
    &&& forall|x: u32| chain.contains(x) ==> u.contains(x)
    &&& (head == 0 ==> chain.len() == 0)
    &&& (head > 0 ==> chain.len() > 0 && chain[0] == root)
    &&& forall|k: int| 1 <= k < chain.len() ==> parent_in(ns, chain.take(k), #[trigger] chain[k])
    &&& forall|q: int| 1 <= q < queue.len() ==> parent_in(ns, chain, #[trigger] queue[q])
    &&& forall|x: u32, c: u32| chain.contains(x) && #[trigger] child_of(ns, x, c) ==> chain.contains(c) || queue.skip(head).contains(c)
}

proof fn lemma_walk_skip(ns: Seq<ProcessNode>, root: u32, u: Set<u32>, queue: Seq<u32>, head: int, chain: Seq<u32>)
    requires
        walk_state(ns, root, u, queue, head, chain),
        head < queue.len(),
        chain.contains(queue[head]),
        head > 0,
    ensures
        walk_state(ns, root, u, queue, head + 1, chain),
{
    assert forall|x: u32, c: u32| chain.contains(x) && #[trigger] child_of(ns, x, c) implies chain.contains(c) || queue.skip(head + 1).contains(c) by {
        if !chain.contains(c) {
            assert(queue.skip(head).contains(c));
            let t = choose|t: int| 0 <= t < queue.skip(head).len() && queue.skip(head)[t] == c;
            assert(t != 0);
            assert(queue.skip(head + 1)[t - 1] == c);
        }
    }
}

#[verifier::rlimit(50)]
#[verifier::spinoff_prover]
proof fn lemma_walk_push(
    ns: Seq<ProcessNode>,
    root: u32,
    u: Set<u32>,
    old_queue: Seq<u32>,
    head: int,
    old_chain: Seq<u32>,
    queue: Seq<u32>,
    chain: Seq<u32>,
)
    requires
        u == (seq![root] + all_children(ns)).to_set(),
        walk_state(ns, root, u, old_queue, head, old_chain),
        head < old_queue.len(),
        !old_chain.contains(old_queue[head]),
        chain == old_chain.push(old_queue[head]),
        queue.len() >= old_queue.len(),
        queue.take(old_queue.len() as int) == old_queue,
        forall|q: int| old_queue.len() <= q < queue.len() ==> child_of(ns, old_queue[head], #[trigger] queue[q]),
        forall|c: u32| #[trigger] child_of(ns, old_queue[head], c) ==> chain.contains(c) || queue.skip(old_queue.len() as int).contains(c),
    ensures
        walk_state(ns, root, u, queue, head + 1, chain),
{
    let pid = old_queue[head];
    assert(chain.take(old_chain.len() as int) == old_chain);
    lemma_push_contains(old_chain, pid);
    assert forall|q: int| 0 <= q < queue.len() implies u.contains(#[trigger] queue[q]) by {
        if q < old_queue.len() {
            assert(queue[q] == old_queue[q]);
        } else {
            let k = first_node(ns, pid);
            lemma_all_children_contains(ns, k, queue[q]);
            let a = seq![root] + all_children(ns);
            let i = choose|i: int| 0 <= i < all_children(ns).len() && all_children(ns)[i] == queue[q];
            assert(a[i + 1] == queue[q]);
        }
    }
    assert(queue[0] == old_queue[0]);
    assert forall|x: u32| chain.contains(x) implies u.contains(x) by {
        let i = choose|i: int| 0 <= i < chain.len() && chain[i] == x;
        if i < old_chain.len() {
            assert(old_chain[i] == x);
        }
    }
    if head == 0 {
        assert(pid == root);
    }
    assert forall|k: int| 1 <= k < chain.len() implies parent_in(ns, chain.take(k), #[trigger] chain[k]) by {
        if k < old_chain.len() {
            assert(chain.take(k) == old_chain.take(k));
            assert(chain[k] == old_chain[k]);
        } else {
            assert(chain.take(k) == old_chain);
            assert(parent_in(ns, old_chain, old_queue[head]));
        }
    }
    assert forall|q: int| 1 <= q < queue.len() implies parent_in(ns, chain, #[trigger] queue[q]) by {
        if q < old_queue.len() {
            assert(queue[q] == old_queue[q]);
            assert(parent_in(ns, old_chain, old_queue[q]));
            let j = choose|j: int| 0 <= j < old_chain.len() && child_of(ns, old_chain[j], old_queue[q]);
            assert(chain[j] == old_chain[j]);
        } else {
            assert(chain[old_chain.len() as int] == pid);
        }
    }
    assert forall|x: u32, c: u32| chain.contains(x) && #[trigger] child_of(ns, x, c) implies chain.contains(c) || queue.skip(head + 1).contains(c) by {
        if x == pid {
            if !chain.contains(c) {
                let t = choose|t: int| 0 <= t < queue.skip(old_queue.len() as int).len() && queue.skip(old_queue.len() as int)[t] == c;
                assert(queue.skip(head + 1)[old_queue.len() - head - 1 + t] == c);
            }
        } else {
            let i = choose|i: int| 0 <= i < chain.len() && chain[i] == x;
            assert(old_chain.contains(x)) by {
                assert(old_chain[i] == x);
            }
            if !chain.contains(c) {
                assert(!old_chain.contains(c)) by {
                    if old_chain.contains(c) {
                        let i2 = choose|i2: int| 0 <= i2 < old_chain.len() && old_chain[i2] == c;
                        assert(chain[i2] == c);
                    }
                }
                assert(old_queue.skip(head).contains(c));
                let t = choose|t: int| 0 <= t < old_queue.skip(head).len() && old_queue.skip(head)[t] == c;
                assert(t != 0);
                assert(queue[head + t] == old_queue[head + t]);
                assert(queue.skip(head + 1)[t - 1] == c);
            }
        }
    }
}

/// Records the libraries of the node of `pid` in `shared` and queues its children
/// that `chain` does not hold yet.
fn visit_node(
    ns: &Vec<ProcessNode>,
    pid: u32,
    chain: &Vec<u32>,
    queue: &mut Vec<u32>,
    shared: &mut Vec<String>,
    Ghost(base): Ghost<Seq<Seq<char>>>,
)
    requires
        str_views(old(shared)@) == dedup(base),
    ensures
        str_views(final(shared)@) == dedup(base + node_libs(ns@, pid)),
        final(queue)@ == old(queue)@ + node_children(ns@, pid).filter(not_in(chain@)),
        final(queue)@.len() >= old(queue)@.len(),
        final(queue)@.take(old(queue)@.len() as int) == old(queue)@,
        forall|q: int| old(queue)@.len() <= q < final(queue)@.len() ==> child_of(ns@, pid, #[trigger] final(queue)@[q]),
        forall|c: u32| #[trigger] child_of(ns@, pid, c) ==> chain@.contains(c) || final(queue)@.skip(old(queue)@.len() as int).contains(c),
{
    match find_node(ns, pid) {
        Some(k) => {
            let node = &ns[k];
            let ghost lv = str_views(node.shared_libs@);
            let mut li: usize = 0;
            assert(base + lv.take(0) == base);
            while li < node.shared_libs.len()
                invariant
                    lv == str_views(node.shared_libs@),
                    li <= lv.len(),
                    str_views(shared@) == dedup(base + lv.take(li as int)),
                decreases node.shared_libs.len() - li,
            {
                assert((base + lv.take(li + 1)).drop_last() == base + lv.take(li as int));
                assert((base + lv.take(li + 1)).last() == node.shared_libs@[li as int]@);
                push_unique(shared, node.shared_libs[li].clone());
                li = li + 1;
            }
            assert(lv.take(li as int) == lv);
            enqueue_children(node, chain, queue);
        },
        None => {
            assert(base + node_libs(ns@, pid) == base);
            proof {
                reveal(Seq::filter);
            }
            assert(queue@ == old(queue)@ + node_children(ns@, pid).filter(not_in(chain@)));
        },
    }
}

impl DependencyAnalyzer {
    /// Walks the child links breadth-first from `root_pid`, adds every process reached
    /// to `visited`, and returns the chain when it holds more than the root.
    pub fn build_chain_from_root(&self, root_pid: u32, graph: &ProcessDependencyGraph, visited: &mut Vec<u32>) -> (r: Option<DependencyChain>)
        ensures
            match r {
                Some(c) => {
                    &&& chain_from(graph.processes@, root_pid, c.chain@)
                    &&& c.chain@.len() > 1
                    &&& c.root_pid == root_pid
                    &&& c.depth == c.chain@.len() as u32
                    &&& walk_order(graph.processes@, root_pid, c.chain@)
                    &&& str_views(c.shared_resources@) == dedup(libs_along(graph.processes@, c.chain@))
                    &&& final(visited)@.to_set() == old(visited)@.to_set().union(c.chain@.to_set())
                },
                None => {
                    &&& chain_from(graph.processes@, root_pid, seq![root_pid])
                    &&& walk_order(graph.processes@, root_pid, seq![root_pid])
                    &&& final(visited)@.to_set() == old(visited)@.to_set().insert(root_pid)
                },
            },
    {
        let ghost ns = graph.processes@;
        let ghost u = (seq![root_pid] + all_children(ns)).to_set();
        let mut chain: Vec<u32> = Vec::new();
        let mut queue: Vec<u32> = Vec::new();
        let mut shared: Vec<String> = Vec::new();
        queue.push(root_pid);
        let mut head: usize = 0;
        let ghost mut steps: nat = 0;
        proof {
            reveal(walk_after);
            assert(queue@ == seq![root_pid]);
            assert(walk_after(ns, root_pid, steps) == (queue@, head as int, chain@));
            assert((seq![root_pid] + all_children(ns))[0] == root_pid);
            assert(u.finite());
            assert(str_views(shared@) =~= dedup(libs_along(ns, chain@)));
            assert(visited@.to_set() =~= old(visited)@.to_set().union(chain@.to_set()));
        }
        while head < queue.len()
            invariant
                ns == graph.processes@,
                u == (seq![root_pid] + all_children(ns)).to_set(),
                u.finite(),
                walk_state(ns, root_pid, u, queue@, head as int, chain@),
                str_views(shared@) == dedup(libs_along(ns, chain@)),
                visited@.to_set() == old(visited)@.to_set().union(chain@.to_set()),
                walk_after(ns, root_pid, steps) == (queue@, head as int, chain@),
            decreases (u.len() - chain@.len()), (queue@.len() - head),
        {
            let pid = queue[head];
            let ghost old_head = head as int;
            let ghost old_queue = queue@;
            let ghost old_chain = chain@;
            proof {
                chain@.unique_seq_to_set();
                vstd::set_lib::lemma_len_subset(chain@.to_set(), u);
            }
            proof {
                reveal(walk_after);
                steps = steps + 1;
                assert(walk_after(ns, root_pid, steps) == walk_step(ns, (old_queue, old_head, old_chain)));
            }
            if contains_u32(&chain, pid) {
                proof {
                    lemma_walk_skip(ns, root_pid, u, queue@, head as int, chain@);
                }
                head = head + 1;
            } else {
                chain.push(pid);
                let ghost vis_before = visited@;
                if !contains_u32(visited, pid) {
                    visited.push(pid);
                    proof {
                        lemma_push_contains(vis_before, pid);
                    }
                } else {
                    assert(vis_before.to_set().insert(pid) =~= vis_before.to_set());
                }
                proof {
                    lemma_push_contains(old_chain, pid);
                    assert(visited@.to_set() =~= old(visited)@.to_set().union(chain@.to_set()));
                    assert(chain@.drop_last() == old_chain);
                }
                visit_node(&graph.processes, pid, &chain, &mut queue, &mut shared, Ghost(libs_along(ns, old_chain)));
                proof {
                    lemma_walk_push(ns, root_pid, u, old_queue, old_head, old_chain, queue@, chain@);
                    chain@.unique_seq_to_set();
                    vstd::set_lib::lemma_len_subset(chain@.to_set(), u);
                }
                head = head + 1;
            }
        }
        proof {
            assert(queue@.skip(head as int) == Seq::<u32>::empty());
            assert(chain@.contains(chain@[0]));
            assert(walk_after(ns, root_pid, steps).1 >= walk_after(ns, root_pid, steps).0.len());
        }
        if chain.len() > 1 {
            let depth = chain.len() as u32;
            Some(DependencyChain { root_pid, chain, depth, shared_resources: shared })
        } else {
            proof {
                assert(chain@ =~= seq![root_pid]);
            }
            None
        }
    }
}


/// The processes `pid1` and `pid2` are both in the graph and share more than two
/// distinct libraries.
pub open spec fn share_many_libraries(ns: Seq<ProcessNode>, pid1: u32, pid2: u32) -> bool {
    let k1 = first_node(ns, pid1);
    let k2 = first_node(ns, pid2);
    k1 >= 0 && k2 >= 0 && str_views(ns[k1].shared_libs@).to_set().intersect(
        str_views(ns[k2].shared_libs@).to_set(),
    ).len() > 2
}

/// Two processes are suspected of a circular dependency only when at least three
/// distinct libraries each appear among the libraries of both: when every library they
/// have in common is `a` or `b`, they are not.
pub proof fn lemma_few_common_libraries_no_cycle(ns: Seq<ProcessNode>, pid1: u32, pid2: u32, a: Seq<char>, b: Seq<char>)
    requires
        forall|x: Seq<char>|
            str_views(ns[first_node(ns, pid1)].shared_libs@).contains(x) && str_views(
                ns[first_node(ns, pid2)].shared_libs@,
            ).contains(x) ==> x == a || x == b,
    ensures
        !share_many_libraries(ns, pid1, pid2),
{
    let s1 = str_views(ns[first_node(ns, pid1)].shared_libs@).to_set();
    let s2 = str_views(ns[first_node(ns, pid2)].shared_libs@).to_set();
    let i = s1.intersect(s2);
    let ab = set![a, b];
    assert(i.subset_of(ab));
    vstd::set_lib::lemma_len_subset(i, ab);
    assert(ab.len() <= 2) by {
        if a == b {
            assert(ab =~= set![a]);
        }
    }
}

/// Two processes of the graph that have three distinct libraries `a`, `b` and `c` in
/// common are suspected of a circular dependency.
pub proof fn lemma_three_common_libraries_cycle(
    ns: Seq<ProcessNode>,
    pid1: u32,
    pid2: u32,
    a: Seq<char>,
    b: Seq<char>,
    c: Seq<char>,
)
    requires
        first_node(ns, pid1) >= 0,
        first_node(ns, pid2) >= 0,
        a != b && b != c && a != c,
        str_views(ns[first_node(ns, pid1)].shared_libs@).contains(a),
        str_views(ns[first_node(ns, pid1)].shared_libs@).contains(b),
        str_views(ns[first_node(ns, pid1)].shared_libs@).contains(c),
        str_views(ns[first_node(ns, pid2)].shared_libs@).contains(a),
        str_views(ns[first_node(ns, pid2)].shared_libs@).contains(b),
        str_views(ns[first_node(ns, pid2)].shared_libs@).contains(c),
    ensures
        share_many_libraries(ns, pid1, pid2),
{
    let s1 = str_views(ns[first_node(ns, pid1)].shared_libs@).to_set();
    let s2 = str_views(ns[first_node(ns, pid2)].shared_libs@).to_set();
    let i = s1.intersect(s2);
    let abc = set![a, b, c];
    assert(abc.subset_of(i));
    vstd::set_lib::lemma_len_subset(abc, i);
    assert(abc.len() == 3);
}

/// Whether two processes are suspected of a circular dependency does not depend on
/// the order in which they are named.
pub proof fn lemma_circular_symmetric(ns: Seq<ProcessNode>, pid1: u32, pid2: u32)
    ensures
        share_many_libraries(ns, pid1, pid2) == share_many_libraries(ns, pid2, pid1),
{
    let s1 = str_views(ns[first_node(ns, pid1)].shared_libs@).to_set();
    let s2 = str_views(ns[first_node(ns, pid2)].shared_libs@).to_set();
    assert(s1.intersect(s2) =~= s2.intersect(s1));
}

/// What a suspected circular dependency reads as: its processes, kind and resource.
pub type CircularView = (Seq<u32>, Seq<char>, Seq<char>);

pub open spec fn circular_view(c: CircularDependency) -> CircularView {
    (c.processes@, c.dependency_type@, c.resource@)
}

pub open spec fn circular_views(cs: Seq<CircularDependency>) -> Seq<CircularView> {
    Seq::new(cs.len(), |i: int| circular_view(cs[i]))
}

/// The kind recorded for a dependency through a shared library.
pub open spec fn shared_library_kind() -> Seq<char> {
    seq!['S', 'h', 'a', 'r', 'e', 'd', 'L', 'i', 'b', 'r', 'a', 'r', 'y']
}

/// Suspected dependencies between user `i` of `lib` and each later user from `j` on.
pub open spec fn circular_row(ns: Seq<ProcessNode>, lib: SharedLibrary, i: int, j: int) -> Seq<CircularView>
    decreases lib.processes_using@.len() - j,
{
    let us = lib.processes_using@;
    if j >= us.len() || j < 0 {
        seq![]
    } else {
        let here: Seq<CircularView> = if share_many_libraries(ns, us[i], us[j]) {
            seq![(seq![us[i], us[j]], shared_library_kind(), lib.path@)]
        } else {
            seq![]
        };
        here + circular_row(ns, lib, i, j + 1)
    }
}

/// Suspected dependencies between the users of `lib` from `i` on and their later peers.
pub open spec fn circular_in_lib(ns: Seq<ProcessNode>, lib: SharedLibrary, i: int) -> Seq<CircularView>
    decreases lib.processes_using@.len() - i,
{
    if i >= lib.processes_using@.len() || i < 0 {
        seq![]
    } else {
        circular_row(ns, lib, i, i + 1) + circular_in_lib(ns, lib, i + 1)
    }
}

/// Suspected dependencies through each library of `ls` in turn, every pair of users
/// of a library taken in order.
pub open spec fn circular_all(ns: Seq<ProcessNode>, ls: Seq<SharedLibrary>) -> Seq<CircularView>
    decreases ls.len(),
{
    if ls.len() == 0 {
        seq![]
    } else {
        circular_all(ns, ls.drop_last()) + (if ls.last().processes_using@.len() > 1 {
            circular_in_lib(ns, ls.last(), 0)
        } else {
            seq![]
        })
    }
}

/// The level each process gets from the chains `chains`: its position in the last
/// chain that holds it (the last such position), or `old` when none does.
pub open spec fn level_after(chains: Seq<Seq<u32>>, pid: u32, old: u32) -> u32
    decreases chains.len(),
{
    if chains.len() == 0 {
        old
    } else {
        level_in(chains.last(), pid, level_after(chains.drop_last(), pid, old))
    }
}

/// The last position of `pid` in `c` (as a `u32`), or `old` when `c` does not hold it.
pub open spec fn level_in(c: Seq<u32>, pid: u32, old: u32) -> u32
    decreases c.len(),
{
    if c.len() == 0 {
        old
    } else if c.last() == pid {
        (c.len() - 1) as u32
    } else {
        level_in(c.drop_last(), pid, old)
    }
}

proof fn lemma_level_in_position(c: Seq<u32>, pid: u32, old: u32, i: int)
    requires
        0 <= i < c.len(),
        c[i] == pid,
        forall|j: int| i < j < c.len() ==> c[j] != pid,
    ensures
        level_in(c, pid, old) == i as u32,
    decreases c.len(),
{
    if i < c.len() - 1 {
        assert(c.drop_last()[i] == pid);
        lemma_level_in_position(c.drop_last(), pid, old, i);
    }
}

proof fn lemma_level_in_absent(c: Seq<u32>, pid: u32, old: u32)
    requires
        !c.contains(pid),
    ensures
        level_in(c, pid, old) == old,
    decreases c.len(),
{
    if c.len() > 0 {
        assert(c.last() == c[c.len() - 1]);
        assert(!c.drop_last().contains(pid)) by {
            if c.drop_last().contains(pid) {
                let j = choose|j: int| 0 <= j < c.drop_last().len() && c.drop_last()[j] == pid;
                assert(c[j] == pid);
            }
        }
        lemma_level_in_absent(c.drop_last(), pid, old);
    }
}

/// A process gets as its level its position in a chain that holds it, when it appears
/// nowhere after that position: not later in that chain, and in no later chain.
pub proof fn lemma_level_is_chain_position(chains: Seq<Seq<u32>>, pid: u32, old: u32, c: int, i: int)
    requires
        0 <= c < chains.len(),
        0 <= i < chains[c].len(),
        chains[c][i] == pid,
        forall|j: int| i < j < chains[c].len() ==> chains[c][j] != pid,
        forall|d: int| c < d < chains.len() ==> !(#[trigger] chains[d]).contains(pid),
    ensures
        level_after(chains, pid, old) == i as u32,
    decreases chains.len(),
{
    if c == chains.len() - 1 {
        lemma_level_in_position(chains.last(), pid, level_after(chains.drop_last(), pid, old), i);
    } else {
        assert(chains.drop_last()[c] == chains[c]);
        assert forall|d: int| c < d < chains.drop_last().len() implies !(#[trigger] chains.drop_last()[d]).contains(pid) by {
            assert(chains.drop_last()[d] == chains[d]);
        }
        lemma_level_is_chain_position(chains.drop_last(), pid, old, c, i);
        assert(chains.last() == chains[chains.len() - 1]);
        lemma_level_in_absent(chains.last(), pid, i as u32);
    }
}

/// A process that no chain holds keeps its level.
pub proof fn lemma_level_unchained(chains: Seq<Seq<u32>>, pid: u32, old: u32)
    requires
        forall|d: int| 0 <= d < chains.len() ==> !(#[trigger] chains[d]).contains(pid),
    ensures
        level_after(chains, pid, old) == old,
    decreases chains.len(),
{
    if chains.len() > 0 {
        assert forall|d: int| 0 <= d < chains.drop_last().len() implies !(#[trigger] chains.drop_last()[d]).contains(pid) by {
            assert(chains.drop_last()[d] == chains[d]);
        }
        lemma_level_unchained(chains.drop_last(), pid, old);
        assert(chains.last() == chains[chains.len() - 1]);
        lemma_level_in_absent(chains.last(), pid, old);
    }
}

/// The chains of `cs` as sequences of process ids.
pub open spec fn chain_seqs(cs: Seq<DependencyChain>) -> Seq<Seq<u32>> {
    Seq::new(cs.len(), |i: int| cs[i].chain@)
}

proof fn lemma_level_in_step(c: Seq<u32>, j: int, pid: u32, old: u32)
    requires
        0 <= j < c.len(),
    ensures
        level_in(c.take(j + 1), pid, old) == (if c[j] == pid {
            j as u32
        } else {
            level_in(c.take(j), pid, old)
        }),
{
    assert(c.take(j + 1).drop_last() == c.take(j));
    assert(c.take(j + 1).last() == c[j]);
}

impl DependencyAnalyzer {
    /// Whether the processes `pid1` and `pid2` are both in the graph and share more
    /// than two distinct libraries.
    pub fn processes_have_circular_dependency(&self, pid1: u32, pid2: u32, graph: &ProcessDependencyGraph) -> (b: bool)
        ensures
            b == share_many_libraries(graph.processes@, pid1, pid2),
    {
        let k1 = match find_node(&graph.processes, pid1) {
            Some(k) => k,
            None => {
                return false;
            },
        };
        let k2 = match find_node(&graph.processes, pid2) {
            Some(k) => k,
            None => {
                return false;
            },
        };
        let l1 = &graph.processes[k1].shared_libs;
        let l2 = &graph.processes[k2].shared_libs;
        let ghost s1 = str_views(l1@);
        let ghost s2 = str_views(l2@);
        let mut common: Vec<String> = Vec::new();
        let mut i: usize = 0;
        assert(str_views(common@).to_set() =~= s1.take(0).to_set().intersect(s2.to_set()));
        while i < l1.len()
            invariant
                s1 == str_views(l1@),
                s2 == str_views(l2@),
                i <= s1.len(),
                str_views(common@).no_duplicates(),
                str_views(common@).to_set() == s1.take(i as int).to_set().intersect(s2.to_set()),
            decreases l1.len() - i,
        {
            let ghost before = str_views(common@);
            assert(s1.take(i + 1) == s1.take(i as int).push(s1[i as int]));
            proof {
                lemma_push_contains(s1.take(i as int), s1[i as int]);
            }
            assert(s1[i as int] == l1@[i as int]@);
            if contains_string(l2, &l1[i]) {
                if !contains_string(&common, &l1[i]) {
                    proof {
                        lemma_str_views_push(common@, l1@[i as int]);
                        lemma_push_contains(before, s1[i as int]);
                    }
                    common.push(l1[i].clone());
                    assert(str_views(common@).to_set() =~= s1.take(i + 1).to_set().intersect(s2.to_set()));
                } else {
                    assert(str_views(common@).to_set() =~= s1.take(i + 1).to_set().intersect(s2.to_set()));
                }
            } else {
                assert(str_views(common@).to_set() =~= s1.take(i + 1).to_set().intersect(s2.to_set()));
            }
            i = i + 1;
        }
        assert(s1.take(i as int) == s1);
        proof {
            str_views(common@).unique_seq_to_set();
        }
        common.len() > 2
    }

    /// Appends a suspected circular dependency for each pair of processes that use one
    /// library and share more than two libraries, library by library, pair by pair.
    pub fn detect_circular_dependencies(&self, graph: &mut ProcessDependencyGraph)
        ensures
            final(graph).processes@ == old(graph).processes@,
            final(graph).shared_libraries@ == old(graph).shared_libraries@,
            final(graph).dependency_chains@ == old(graph).dependency_chains@,
            circular_views(final(graph).circular_dependencies@) == circular_views(old(graph).circular_dependencies@)
                + circular_all(old(graph).processes@, old(graph).shared_libraries@),
    {
        let mut found: Vec<CircularDependency> = Vec::new();
        let ghost ns = graph.processes@;
        let ghost ls = graph.shared_libraries@;
        let mut li: usize = 0;
        assert(circular_views(found@) =~= circular_all(ns, ls.take(0)));
        while li < graph.shared_libraries.len()
            invariant
                ns == graph.processes@,
                ls == graph.shared_libraries@,
                li <= ls.len(),
                circular_views(found@) == circular_all(ns, ls.take(li as int)),
            decreases graph.shared_libraries.len() - li,
        {
            let lib = &graph.shared_libraries[li];
            let us = &lib.processes_using;
            assert(ls.take(li + 1).drop_last() == ls.take(li as int));
            assert(ls.take(li + 1).last() == *lib);
            let ghost start = circular_views(found@);
            if us.len() > 1 {
                let mut i: usize = 0;
                assert(start + circular_in_lib(ns, *lib, 0) == start + circular_in_lib(ns, *lib, 0));
                while i < us.len()
                    invariant
                        *lib == ls[li as int],
                        us == &lib.processes_using,
                        ns == graph.processes@,
                        i <= us@.len(),
                        circular_views(found@) + circular_in_lib(ns, *lib, i as int) == start + circular_in_lib(ns, *lib, 0),
                    decreases us.len() - i,
                {
                    let ghost row_start = circular_views(found@);
                    let mut j: usize = i + 1;
                    while j < us.len()
                        invariant
                            *lib == ls[li as int],
                            us == &lib.processes_using,
                            ns == graph.processes@,
                            i < us@.len(),
                            i + 1 <= j <= us@.len(),
                            circular_views(found@) + circular_row(ns, *lib, i as int, j as int) == row_start + circular_row(ns, *lib, i as int, i + 1),
                        decreases us.len() - j,
                    {
                        let pid1 = us[i];
                        let pid2 = us[j];
                        let ghost before = circular_views(found@);
                        if self.processes_have_circular_dependency(pid1, pid2, graph) {
                            let mut kind = String::new();
                            push_char(&mut kind, 'S');
                            push_char(&mut kind, 'h');
                            push_char(&mut kind, 'a');
                            push_char(&mut kind, 'r');
                            push_char(&mut kind, 'e');
                            push_char(&mut kind, 'd');
                            push_char(&mut kind, 'L');
                            push_char(&mut kind, 'i');
                            push_char(&mut kind, 'b');
                            push_char(&mut kind, 'r');
                            push_char(&mut kind, 'a');
                            push_char(&mut kind, 'r');
                            push_char(&mut kind, 'y');
                            let mut procs: Vec<u32> = Vec::new();
                            procs.push(pid1);
                            procs.push(pid2);
                            let c = CircularDependency { processes: procs, dependency_type: kind, resource: lib.path.clone() };
                            found.push(c);
                            assert(circular_views(found@) =~= before.push(circular_view(c)));
                            assert(circular_view(c) == (seq![pid1, pid2], shared_library_kind(), lib.path@));
                            assert(before + circular_row(ns, *lib, i as int, j as int) == before.push(circular_view(c)) + circular_row(ns, *lib, i as int, j + 1));
                        } else {
                            assert(circular_row(ns, *lib, i as int, j as int) == Seq::<CircularView>::empty() + circular_row(ns, *lib, i as int, j + 1));
                            assert(Seq::<CircularView>::empty() + circular_row(ns, *lib, i as int, j + 1) == circular_row(ns, *lib, i as int, j + 1));
                        }
                        j = j + 1;
                    }
                    assert(circular_row(ns, *lib, i as int, j as int) == Seq::<CircularView>::empty());
                    assert(circular_views(found@) + Seq::<CircularView>::empty() == circular_views(found@));
                    assert(row_start + circular_in_lib(ns, *lib, i as int) == (row_start + circular_row(ns, *lib, i as int, i + 1)) + circular_in_lib(ns, *lib, i + 1));
                    i = i + 1;
                }
                assert(circular_in_lib(ns, *lib, i as int) == Seq::<CircularView>::empty());
                assert(circular_views(found@) + Seq::<CircularView>::empty() == circular_views(found@));
            } else {
                assert(start + Seq::<CircularView>::empty() == start);
            }
            li = li + 1;
        }
        assert(ls.take(li as int) == ls);
        let ghost old_views = circular_views(graph.circular_dependencies@);
        let mut k: usize = 0;
        let ghost found_views = circular_views(found@);
        assert(old_views + found_views.take(0) == old_views);
        while k < found.len()
            invariant
                k <= found@.len(),
                found_views == circular_views(found@),
                ns == graph.processes@,
                ls == graph.shared_libraries@,
                graph.dependency_chains@ == old(graph).dependency_chains@,
                old_views == circular_views(old(graph).circular_dependencies@),
                circular_views(graph.circular_dependencies@) == old_views + found_views.take(k as int),
            decreases found.len() - k,
        {
            let c = &found[k];
            let mut procs: Vec<u32> = Vec::new();
            let mut t: usize = 0;
            while t < c.processes.len()
                invariant
                    t <= c.processes@.len(),
                    procs@ == c.processes@.take(t as int),
                decreases c.processes.len() - t,
            {
                procs.push(c.processes[t]);
                assert(c.processes@.take(t + 1) == c.processes@.take(t as int).push(c.processes@[t as int]));
                t = t + 1;
            }
            assert(c.processes@.take(t as int) == c.processes@);
            let copy = CircularDependency { processes: procs, dependency_type: c.dependency_type.clone(), resource: c.resource.clone() };
            let ghost before = circular_views(graph.circular_dependencies@);
            graph.circular_dependencies.push(copy);
            assert(circular_views(graph.circular_dependencies@) =~= before.push(circular_view(copy)));
            assert(found_views.take(k + 1) == found_views.take(k as int).push(found_views[k as int]));
            assert(found_views[k as int] == circular_view(found@[k as int]));
            k = k + 1;
        }
        assert(found_views.take(k as int) == found_views);
    }

    /// Sets the dependency level of each process to its position in the last chain that
    /// holds it.
    pub fn calculate_dependency_levels(&self, graph: &mut ProcessDependencyGraph)
        ensures
            final(graph).processes@.len() == old(graph).processes@.len(),
            final(graph).shared_libraries@ == old(graph).shared_libraries@,
            final(graph).dependency_chains@ == old(graph).dependency_chains@,
            final(graph).circular_dependencies@ == old(graph).circular_dependencies@,
            forall|k: int| 0 <= k < old(graph).processes@.len() ==> {
                let n = old(graph).processes@[k];
                let m = #[trigger] final(graph).processes@[k];
                &&& m.pid == n.pid && m.name == n.name && m.ppid == n.ppid && m.children == n.children
                &&& m.shared_libs == n.shared_libs && m.memory_maps == n.memory_maps
                &&& m.open_files == n.open_files && m.sockets == n.sockets
                &&& m.dependency_level == (if k == first_node(old(graph).processes@, n.pid) {
                    level_after(chain_seqs(old(graph).dependency_chains@), n.pid, n.dependency_level)
                } else {
                    n.dependency_level
                })
            },
    {
        let ghost ns0 = graph.processes@;
        let ghost cs = chain_seqs(graph.dependency_chains@);
        let mut ci: usize = 0;
        while ci < graph.dependency_chains.len()
            invariant
                graph.processes@.len() == ns0.len(),
                graph.shared_libraries@ == old(graph).shared_libraries@,
                graph.dependency_chains@ == old(graph).dependency_chains@,
                graph.circular_dependencies@ == old(graph).circular_dependencies@,
                ns0 == old(graph).processes@,
                cs == chain_seqs(graph.dependency_chains@),
                ci <= cs.len(),
                forall|k: int| 0 <= k < ns0.len() ==> {
                    let n = ns0[k];
                    let m = #[trigger] graph.processes@[k];
                    &&& m.pid == n.pid && m.name == n.name && m.ppid == n.ppid && m.children == n.children
                    &&& m.shared_libs == n.shared_libs && m.memory_maps == n.memory_maps
                    &&& m.open_files == n.open_files && m.sockets == n.sockets
                    &&& m.dependency_level == (if k == first_node(ns0, n.pid) {
                        level_after(cs.take(ci as int), n.pid, n.dependency_level)
                    } else {
                        n.dependency_level
                    })
                },
            decreases graph.dependency_chains.len() - ci,
        {
            let ghost before = graph.processes@;
            assert(cs.take(ci + 1).drop_last() == cs.take(ci as int));
            assert(cs.take(ci + 1).last() == graph.dependency_chains@[ci as int].chain@);
            let chain_len = graph.dependency_chains[ci].chain.len();
            let mut level: usize = 0;
            while level < chain_len
                invariant
                    graph.processes@.len() == ns0.len(),
                    graph.shared_libraries@ == old(graph).shared_libraries@,
                    graph.dependency_chains@ == old(graph).dependency_chains@,
                    graph.circular_dependencies@ == old(graph).circular_dependencies@,
                    ns0 == old(graph).processes@,
                    cs == chain_seqs(graph.dependency_chains@),
                    ci < cs.len(),
                    chain_len == cs[ci as int].len(),
                    level <= chain_len,
                    forall|k: int| 0 <= k < ns0.len() ==> {
                        let n = ns0[k];
                        let m = #[trigger] graph.processes@[k];
                        &&& m.pid == n.pid && m.name == n.name && m.ppid == n.ppid && m.children == n.children
                        &&& m.shared_libs == n.shared_libs && m.memory_maps == n.memory_maps
                        &&& m.open_files == n.open_files && m.sockets == n.sockets
                        &&& m.dependency_level == (if k == first_node(ns0, n.pid) {
                            level_in(cs[ci as int].take(level as int), n.pid, level_after(cs.take(ci as int), n.pid, n.dependency_level))
                        } else {
                            n.dependency_level
                        })
                    },
                decreases chain_len - level,
            {
                let pid = graph.dependency_chains[ci].chain[level];
                assert(pid == cs[ci as int][level as int]);
                let ghost prev = graph.processes@;
                proof {
                    assert forall|k: int| 0 <= k < ns0.len() implies prev[k].pid == ns0[k].pid by {}
                    assert(prev.len() == ns0.len());
                }
                match find_node(&graph.processes, pid) {
                    Some(k) => {
                        graph.processes[k].dependency_level = level as u32;
                        proof {
                            assert(first_node(prev, pid) == first_node(ns0, pid)) by {
                                let a = first_node(prev, pid);
                                assert(0 <= a < prev.len() && prev[a].pid == pid && forall|j: int| 0 <= j < a ==> prev[j].pid != pid);
                                assert(ns0[a].pid == pid);
                                let b = first_node(ns0, pid);
                                assert(0 <= b < ns0.len() && ns0[b].pid == pid && forall|j: int| 0 <= j < b ==> ns0[j].pid != pid);
                                assert(prev[b].pid == pid);
                            }
                            assert forall|kk: int| 0 <= kk < ns0.len() implies {
                                let n = ns0[kk];
                                let m = #[trigger] graph.processes@[kk];
                                &&& m.pid == n.pid && m.name == n.name && m.ppid == n.ppid && m.children == n.children
                                &&& m.shared_libs == n.shared_libs && m.memory_maps == n.memory_maps
                                &&& m.open_files == n.open_files && m.sockets == n.sockets
                                &&& m.dependency_level == (if kk == first_node(ns0, n.pid) {
                                    level_in(cs[ci as int].take(level + 1), n.pid, level_after(cs.take(ci as int), n.pid, n.dependency_level))
                                } else {
                                    n.dependency_level
                                })
                            } by {
                                lemma_level_in_step(cs[ci as int], level as int, ns0[kk].pid, level_after(cs.take(ci as int), ns0[kk].pid, ns0[kk].dependency_level));
                                if kk != k {
                                    assert(graph.processes@[kk] == prev[kk]);
                                    if kk == first_node(ns0, ns0[kk].pid) {
                                        assert(ns0[kk].pid != pid);
                                    }
                                }
                            }
                        }
                    },
                    None => {
                        proof {
                            assert forall|kk: int| 0 <= kk < ns0.len() implies {
                                let n = ns0[kk];
                                let m = #[trigger] graph.processes@[kk];
                                m.dependency_level == (if kk == first_node(ns0, n.pid) {
                                    level_in(cs[ci as int].take(level + 1), n.pid, level_after(cs.take(ci as int), n.pid, n.dependency_level))
                                } else {
                                    n.dependency_level
                                })
                            } by {
                                lemma_level_in_step(cs[ci as int], level as int, ns0[kk].pid, level_after(cs.take(ci as int), ns0[kk].pid, ns0[kk].dependency_level));
                                assert(prev[kk].pid != pid);
                            }
                        }
                    },
                }
                level = level + 1;
            }
            assert(cs[ci as int].take(level as int) == cs[ci as int]);
            ci = ci + 1;
        }
        assert(cs.take(ci as int) == cs);
    }
}


/// Some chain of `cs` holds `pid`.
pub open spec fn in_some_chain(cs: Seq<DependencyChain>, pid: u32) -> bool {
    exists|t: int| 0 <= t < cs.len() && #[trigger] cs[t].chain@.contains(pid)
}

/// Every chain of `found` is a proper walk from a graph process that no earlier chain
/// reached, and every process it holds is in `visited`.
pub open spec fn chains_ok(ns: Seq<ProcessNode>, found: Seq<DependencyChain>, visited: Seq<u32>) -> bool {
    forall|t: int| 0 <= t < found.len() ==> {
        let c = #[trigger] found[t];
        &&& chain_from(ns, c.root_pid, c.chain@)
        &&& walk_order(ns, c.root_pid, c.chain@)
        &&& c.chain@.len() > 1
        &&& first_node(ns, c.root_pid) >= 0
        &&& c.depth == c.chain@.len() as u32
        &&& str_views(c.shared_resources@) == dedup(libs_along(ns, c.chain@))
        &&& !in_some_chain(found.take(t), c.root_pid)
        &&& forall|x: u32| c.chain@.contains(x) ==> visited.contains(x)
    }
}

/// Every visited process lies on a recorded chain or reaches nothing else.
pub open spec fn visited_ok(ns: Seq<ProcessNode>, found: Seq<DependencyChain>, visited: Seq<u32>) -> bool {
    forall|x: u32| #[trigger] visited.contains(x) ==> in_some_chain(found, x) || chain_from(ns, x, seq![x])
}

proof fn lemma_record_chain(ns: Seq<ProcessNode>, found: Seq<DependencyChain>, vis_before: Seq<u32>, visited: Seq<u32>, c: DependencyChain)
    requires
        chains_ok(ns, found, vis_before),
        visited_ok(ns, found, vis_before),
        !vis_before.contains(c.root_pid),
        first_node(ns, c.root_pid) >= 0,
        chain_from(ns, c.root_pid, c.chain@),
        walk_order(ns, c.root_pid, c.chain@),
        c.chain@.len() > 1,
        c.depth == c.chain@.len() as u32,
        str_views(c.shared_resources@) == dedup(libs_along(ns, c.chain@)),
        visited.to_set() == vis_before.to_set().union(c.chain@.to_set()),
    ensures
        chains_ok(ns, found.push(c), visited),
        visited_ok(ns, found.push(c), visited),
        forall|x: u32| vis_before.contains(x) ==> visited.contains(x),
{
    let nf = found.push(c);
    assert(forall|x: u32| vis_before.contains(x) ==> visited.to_set().contains(x));
    assert(!in_some_chain(found, c.root_pid)) by {
        if in_some_chain(found, c.root_pid) {
            let t = choose|t: int| 0 <= t < found.len() && #[trigger] found[t].chain@.contains(c.root_pid);
            assert(vis_before.contains(c.root_pid));
        }
    }
    assert(nf.take(found.len() as int) == found);
    assert forall|x: u32| #[trigger] visited.contains(x) implies in_some_chain(nf, x) || chain_from(ns, x, seq![x]) by {
        assert(visited.to_set().contains(x));
        if vis_before.contains(x) {
            if in_some_chain(found, x) {
                let t = choose|t: int| 0 <= t < found.len() && #[trigger] found[t].chain@.contains(x);
                assert(nf[t] == found[t]);
            }
        } else {
            assert(nf[found.len() as int].chain@.contains(x));
        }
    }
    assert forall|t: int| 0 <= t < nf.len() implies {
        let d = #[trigger] nf[t];
        &&& chain_from(ns, d.root_pid, d.chain@)
        &&& d.chain@.len() > 1
        &&& first_node(ns, d.root_pid) >= 0
        &&& d.depth == d.chain@.len() as u32
        &&& str_views(d.shared_resources@) == dedup(libs_along(ns, d.chain@))
        &&& !in_some_chain(nf.take(t), d.root_pid)
        &&& forall|x: u32| d.chain@.contains(x) ==> visited.contains(x)
    } by {
        if t < found.len() {
            assert(nf[t] == found[t]);
            assert(nf.take(t) == found.take(t));
            assert forall|x: u32| nf[t].chain@.contains(x) implies visited.contains(x) by {
                assert(vis_before.contains(x));
                assert(visited.to_set().contains(x));
            }
        } else {
            assert forall|x: u32| nf[t].chain@.contains(x) implies visited.contains(x) by {
                assert(visited.to_set().contains(x));
            }
        }
    }
}

proof fn lemma_record_no_chain(ns: Seq<ProcessNode>, found: Seq<DependencyChain>, vis_before: Seq<u32>, visited: Seq<u32>, root: u32)
    requires
        chains_ok(ns, found, vis_before),
        visited_ok(ns, found, vis_before),
        chain_from(ns, root, seq![root]),
        visited.to_set() == vis_before.to_set().insert(root),
    ensures
        chains_ok(ns, found, visited),
        visited_ok(ns, found, visited),
        forall|x: u32| vis_before.contains(x) ==> visited.contains(x),
        visited.contains(root),
{
    assert(forall|x: u32| vis_before.contains(x) ==> visited.to_set().contains(x));
    assert(visited.to_set().contains(root));
    assert forall|x: u32| #[trigger] visited.contains(x) implies in_some_chain(found, x) || chain_from(ns, x, seq![x]) by {
        assert(visited.to_set().contains(x));
    }
    assert forall|t: int| 0 <= t < found.len() implies {
        let d = #[trigger] found[t];
        &&& chain_from(ns, d.root_pid, d.chain@)
        &&& d.chain@.len() > 1
        &&& first_node(ns, d.root_pid) >= 0
        &&& d.depth == d.chain@.len() as u32
        &&& str_views(d.shared_resources@) == dedup(libs_along(ns, d.chain@))
        &&& !in_some_chain(found.take(t), d.root_pid)
        &&& forall|x: u32| d.chain@.contains(x) ==> visited.contains(x)
    } by {
        assert forall|x: u32| found[t].chain@.contains(x) implies visited.contains(x) by {
            assert(vis_before.contains(x));
            assert(visited.to_set().contains(x));
        }
    }
}

impl DependencyAnalyzer {
    /// Walks from each process, in order, that no earlier walk reached, and appends each
    /// chain that holds more than its root.
    pub fn build_dependency_chains(&self, graph: &mut ProcessDependencyGraph)
        ensures
            final(graph).processes@ == old(graph).processes@,
            final(graph).shared_libraries@ == old(graph).shared_libraries@,
            final(graph).circular_dependencies@ == old(graph).circular_dependencies@,
            final(graph).dependency_chains@.len() >= old(graph).dependency_chains@.len(),
            final(graph).dependency_chains@.take(old(graph).dependency_chains@.len() as int) == old(graph).dependency_chains@,
            ({
                let ns = old(graph).processes@;
                let new = final(graph).dependency_chains@.skip(old(graph).dependency_chains@.len() as int);
                &&& forall|t: int| 0 <= t < new.len() ==> {
                    let c = #[trigger] new[t];
                    &&& chain_from(ns, c.root_pid, c.chain@)
                    &&& walk_order(ns, c.root_pid, c.chain@)
                    &&& c.chain@.len() > 1
                    &&& first_node(ns, c.root_pid) >= 0
                    &&& c.depth == c.chain@.len() as u32
                    &&& str_views(c.shared_resources@) == dedup(libs_along(ns, c.chain@))
                    &&& !in_some_chain(new.take(t), c.root_pid)
                }
                &&& forall|k: int| 0 <= k < ns.len() ==> in_some_chain(new, #[trigger] ns[k].pid) || chain_from(ns, ns[k].pid, seq![ns[k].pid])
            }),
    {
        let ghost ns = graph.processes@;
        let mut visited: Vec<u32> = Vec::new();
        let mut found: Vec<DependencyChain> = Vec::new();
        let mut i: usize = 0;
        while i < graph.processes.len()
            invariant
                ns == graph.processes@,
                i <= ns.len(),
                chains_ok(ns, found@, visited@),
                visited_ok(ns, found@, visited@),
                forall|k: int| 0 <= k < i ==> visited@.contains(#[trigger] ns[k].pid),
            decreases graph.processes.len() - i,
        {
            let pid = graph.processes[i].pid;
            if !contains_u32(&visited, pid) {
                proof {
                    let w = i as int;
                    assert(ns[w].pid == pid);
                    lemma_first_pid_exists(ns, pid, w);
                }
                let ghost vis_before = visited@;
                let r = self.build_chain_from_root(pid, graph, &mut visited);
                match r {
                    Some(c) => {
                        proof {
                            lemma_record_chain(ns, found@, vis_before, visited@, c);
                            assert(visited@.to_set().contains(pid));
                        }
                        found.push(c);
                    },
                    None => {
                        proof {
                            lemma_record_no_chain(ns, found@, vis_before, visited@, pid);
                        }
                    },
                }
                assert(visited@.contains(pid));
            }
            i = i + 1;
        }
        let old_len = graph.dependency_chains.len();
        let ghost found_all = found@;
        let ghost old_chains = graph.dependency_chains@;
        let mut t: usize = 0;
        let total = found.len();
        while t < total
            invariant
                ns == graph.processes@,
                graph.shared_libraries@ == old(graph).shared_libraries@,
                graph.circular_dependencies@ == old(graph).circular_dependencies@,
                old_chains == old(graph).dependency_chains@,
                old_len == old_chains.len(),
                total == found_all.len(),
                t <= found_all.len(),
                found@.len() + t == found_all.len(),
                found@ == found_all.skip(t as int),
                graph.dependency_chains@ == old_chains + found_all.take(t as int),
            decreases total - t,
        {
            let c = found.remove(0);
            graph.dependency_chains.push(c);
            assert(found_all.take(t + 1) == found_all.take(t as int).push(found_all[t as int]));
            assert(found@ == found_all.skip(t + 1));
            t = t + 1;
        }
        proof {
            assert(found_all.take(t as int) == found_all);
            let new = graph.dependency_chains@.skip(old_len as int);
            assert(new == found_all);
            assert(graph.dependency_chains@.take(old_len as int) == old_chains);
        }
    }
}

proof fn lemma_first_pid_exists(ns: Seq<ProcessNode>, pid: u32, w: int)
    requires
        0 <= w < ns.len(),
        ns[w].pid == pid,
    ensures
        exists|j: int| 0 <= j < ns.len() && ns[j].pid == pid && forall|jj: int| 0 <= jj < j ==> ns[jj].pid != pid,
    decreases w,
{
    if exists|jj: int| 0 <= jj < w && ns[jj].pid == pid {
        let w2 = choose|jj: int| 0 <= jj < w && ns[jj].pid == pid;
        lemma_first_pid_exists(ns, pid, w2);
    } else {
        assert(forall|jj: int| 0 <= jj < w ==> ns[jj].pid != pid);
    }
}


/// Each (library, process) pair of the nodes `ns`, node after node, library after library.
pub open spec fn library_pairs(ns: Seq<ProcessNode>) -> Seq<(Seq<char>, u32)>
    decreases ns.len(),
{
    if ns.len() == 0 {
        seq![]
    } else {
        let n = ns.last();
        library_pairs(ns.drop_last()) + Seq::new(n.shared_libs@.len(), |i: int| (n.shared_libs@[i]@, n.pid))
    }
}

/// Position of the group for `path` in `gs`, or -1.
pub open spec fn group_pos(gs: Seq<(Seq<char>, Seq<u32>)>, path: Seq<char>) -> int {
    if exists|i: int| 0 <= i < gs.len() && gs[i].0 == path {
        choose|i: int| 0 <= i < gs.len() && gs[i].0 == path
    } else {
        -1
    }
}

/// The pairs `ps` grouped by library, libraries in order of first mention, each with
/// its processes in order.
pub open spec fn group_pairs(ps: Seq<(Seq<char>, u32)>) -> Seq<(Seq<char>, Seq<u32>)>
    decreases ps.len(),
{
    if ps.len() == 0 {
        seq![]
    } else {
        let gs = group_pairs(ps.drop_last());
        let (path, pid) = ps.last();
        let k = group_pos(gs, path);
        if k >= 0 {
            gs.update(k, (path, gs[k].1.push(pid)))
        } else {
            gs.push((path, seq![pid]))
        }
    }
}

/// Groups never share a library.
pub open spec fn distinct_groups(gs: Seq<(Seq<char>, Seq<u32>)>) -> bool {
    forall|i: int, j: int| 0 <= i < j < gs.len() ==> gs[i].0 != gs[j].0
}

proof fn lemma_group_pairs_distinct(ps: Seq<(Seq<char>, u32)>)
    ensures
        distinct_groups(group_pairs(ps)),
    decreases ps.len(),
{
    if ps.len() > 0 {
        lemma_group_pairs_distinct(ps.drop_last());
    }
}

/// A library group: its path and the processes that map it.
pub struct LibraryUsage {
    pub path: String,
    pub pids: Vec<u32>,
}

pub open spec fn usage_views(us: Seq<LibraryUsage>) -> Seq<(Seq<char>, Seq<u32>)> {
    Seq::new(us.len(), |i: int| (us[i].path@, us[i].pids@))
}

/// The version suffix of a library path: what follows its first `.so.`.
pub open spec fn library_version(path: Seq<char>) -> Option<Seq<char>> {
    let so = seq!['.', 's', 'o', '.'];
    if contains(path, so) {
        Some(path.skip(first_occurrence(path, so) + 4))
    } else {
        None
    }
}

/// A library path under `/lib`, `/usr/lib` or `/lib64`.
pub open spec fn is_system_library(path: Seq<char>) -> bool {
    starts_with(path, seq!['/', 'l', 'i', 'b']) || starts_with(path, seq!['/', 'u', 's', 'r', '/', 'l', 'i', 'b'])
        || starts_with(path, seq!['/', 'l', 'i', 'b', '6', '4'])
}

/// A library is a system library exactly when its path begins with `/lib` (which
/// takes in `/lib64`) or with `/usr/lib`.
pub proof fn lemma_system_library_prefixes(path: Seq<char>)
    ensures
        is_system_library(path) <==> ((path.len() >= 4 && path.subrange(0, 4) == seq!['/', 'l', 'i', 'b']) || (path.len()
            >= 8 && path.subrange(0, 8) == seq!['/', 'u', 's', 'r', '/', 'l', 'i', 'b'])),
{
    if path.len() >= 4 {
        assert(path.take(4) =~= path.subrange(0, 4));
    }
    if path.len() >= 8 {
        assert(path.take(8) =~= path.subrange(0, 8));
    }
    if path.len() >= 6 && path.take(6) == seq!['/', 'l', 'i', 'b', '6', '4'] {
        assert(path.take(4) =~= seq!['/', 'l', 'i', 'b']) by {
            assert forall|k: int| 0 <= k < 4 implies path.take(4)[k] == seq!['/', 'l', 'i', 'b'][k] by {
                assert(path.take(4)[k] == path.take(6)[k]);
            }
        }
    }
}

impl DependencyAnalyzer {
    /// The libraries that the processes of the graph map, each with the processes that
    /// map it, in order of first mention.
    pub fn library_usage(&self, graph: &ProcessDependencyGraph) -> (r: Vec<LibraryUsage>)
        ensures
            usage_views(r@) == group_pairs(library_pairs(graph.processes@)),
    {
        let ghost ns = graph.processes@;
        let mut groups: Vec<LibraryUsage> = Vec::new();
        let mut i: usize = 0;
        assert(usage_views(groups@) =~= group_pairs(library_pairs(ns.take(0))));
        while i < graph.processes.len()
            invariant
                ns == graph.processes@,
                i <= ns.len(),
                usage_views(groups@) == group_pairs(library_pairs(ns.take(i as int))),
            decreases graph.processes.len() - i,
        {
            let node = &graph.processes[i];
            let ghost base = library_pairs(ns.take(i as int));
            let ghost add = Seq::new(node.shared_libs@.len(), |t: int| (node.shared_libs@[t]@, node.pid));
            assert(ns.take(i + 1).drop_last() == ns.take(i as int));
            assert(ns.take(i + 1).last() == *node);
            assert(library_pairs(ns.take(i + 1)) == base + add);
            let mut j: usize = 0;
            assert(base + add.take(0) == base);
            while j < node.shared_libs.len()
                invariant
                    *node == ns[i as int],
                    add == Seq::new(node.shared_libs@.len(), |t: int| (node.shared_libs@[t]@, node.pid)),
                    j <= add.len(),
                    usage_views(groups@) == group_pairs(base + add.take(j as int)),
                decreases node.shared_libs.len() - j,
            {
                let path = &node.shared_libs[j];
                let ghost gs = usage_views(groups@);
                assert((base + add.take(j + 1)).drop_last() == base + add.take(j as int));
                assert((base + add.take(j + 1)).last() == (path@, node.pid));
                proof {
                    lemma_group_pairs_distinct(base + add.take(j as int));
                }
                let mut g: usize = 0;
                let mut hit: Option<usize> = None;
                while g < groups.len()
                    invariant
                        gs == usage_views(groups@),
                        g <= groups@.len(),
                        hit is None ==> forall|t: int| 0 <= t < g ==> gs[t].0 != path@,
                        hit matches Some(h) ==> h < groups@.len() && gs[h as int].0 == path@,
                    decreases groups.len() - g,
                {
                    if hit.is_none() && groups[g].path == *path {
                        hit = Some(g);
                    }
                    g = g + 1;
                }
                match hit {
                    Some(h) => {
                        proof {
                            assert(group_pos(gs, path@) == h) by {
                                let k = group_pos(gs, path@);
                                assert(0 <= k < gs.len() && gs[k].0 == path@);
                            }
                        }
                        groups[h].pids.push(node.pid);
                        assert(usage_views(groups@) =~= gs.update(h as int, (path@, gs[h as int].1.push(node.pid))));
                    },
                    None => {
                        assert(group_pos(gs, path@) == -1);
                        let mut pids: Vec<u32> = Vec::new();
                        pids.push(node.pid);
                        let u = LibraryUsage { path: path.clone(), pids };
                        groups.push(u);
                        assert(usage_views(groups@) =~= gs.push((path@, seq![node.pid])));
                    },
                }
                j = j + 1;
            }
            assert(add.take(j as int) == add);
            i = i + 1;
        }
        assert(ns.take(i as int) == ns);
        groups
    }

    /// The record of the library `path` mapped by `pids` whose file has `size` bytes:
    /// its version is what follows the first `.so.` in the path, and it is a system
    /// library when it lies under `/lib`, `/usr/lib` or `/lib64`.
    #[verifier::spinoff_prover]
    pub fn library_record(&self, path: String, pids: Vec<u32>, size: u64) -> (r: SharedLibrary)
        ensures
            r.path@ == path@,
            r.size == size,
            r.processes_using@ == pids@,
            r.is_system_lib == is_system_library(path@),
            r.is_system_lib <==> ((path@.len() >= 4 && path@.subrange(0, 4) == seq!['/', 'l', 'i', 'b']) || (path@.len()
                >= 8 && path@.subrange(0, 8) == seq!['/', 'u', 's', 'r', '/', 'l', 'i', 'b'])),
            match library_version(path@) {
                Some(v) => r.version is Some && r.version->0@ == v,
                None => r.version is None,
            },
    {
        let v = chars_of(path.as_str());
        let lib: [char; 4] = ['/', 'l', 'i', 'b'];
        let usr_lib: [char; 8] = ['/', 'u', 's', 'r', '/', 'l', 'i', 'b'];
        let lib64: [char; 6] = ['/', 'l', 'i', 'b', '6', '4'];
        let is_system_lib = has_prefix(&v, &lib) || has_prefix(&v, &usr_lib) || has_prefix(&v, &lib64);
        let so_dot: [char; 4] = ['.', 's', 'o', '.'];
        let version = match find_seq(&v, &so_dot) {
            Some(k) => {
                proof {
                    assert(so_dot@ == seq!['.', 's', 'o', '.']);
                    lemma_first_occurrence(path@, so_dot@, k as int);
                    assert(so_dot@.len() == 4);
                    assert(occurs_at(v@, so_dot@, k as int));
                    assert(k + 4 <= v@.len());
                    assert(v@.len() == v.len());
                }
                let t = slice_chars(&v, k + 4, v.len());
                Some(string_from(&t))
            },
            None => None,
        };
        proof {
            lemma_system_library_prefixes(path@);
        }
        SharedLibrary { path, size, processes_using: pids, version, is_system_lib }
    }
}


impl ProcessDependencyGraph {
    /// An empty graph.
    pub fn new() -> (g: Self)
        ensures
            g.processes@.len() == 0,
            g.shared_libraries@.len() == 0,
            g.dependency_chains@.len() == 0,
            g.circular_dependencies@.len() == 0,
            g.wf(),
    {
        ProcessDependencyGraph {
            processes: Vec::new(),
            shared_libraries: Vec::new(),
            dependency_chains: Vec::new(),
            circular_dependencies: Vec::new(),
        }
    }

    /// Records `node`, replacing the node with the same process id if there is one.
    pub fn insert_node(&mut self, node: ProcessNode)
        ensures
            first_node(old(self).processes@, node.pid) >= 0 ==> final(self).processes@ == old(self).processes@.update(
                first_node(old(self).processes@, node.pid),
                node,
            ),
            first_node(old(self).processes@, node.pid) < 0 ==> final(self).processes@ == old(self).processes@.push(node),
            final(self).shared_libraries@ == old(self).shared_libraries@,
            final(self).dependency_chains@ == old(self).dependency_chains@,
            final(self).circular_dependencies@ == old(self).circular_dependencies@,
            old(self).wf() ==> final(self).wf(),
    {
        match find_node(&self.processes, node.pid) {
            Some(k) => {
                self.processes.set(k, node);
            },
            None => {
                self.processes.push(node);
            },
        }
    }

    /// Records `lib`, replacing the library with the same path if there is one.
    pub fn insert_library(&mut self, lib: SharedLibrary)
        ensures
            first_lib(old(self).shared_libraries@, lib.path@) >= 0 ==> final(self).shared_libraries@ == old(self).shared_libraries@.update(
                first_lib(old(self).shared_libraries@, lib.path@),
                lib,
            ),
            first_lib(old(self).shared_libraries@, lib.path@) < 0 ==> final(self).shared_libraries@ == old(self).shared_libraries@.push(lib),
            final(self).processes@ == old(self).processes@,
            final(self).dependency_chains@ == old(self).dependency_chains@,
            final(self).circular_dependencies@ == old(self).circular_dependencies@,
            old(self).wf() ==> final(self).wf(),
    {
        match find_lib(&self.shared_libraries, &lib.path) {
            Some(k) => {
                self.shared_libraries.set(k, lib);
            },
            None => {
                self.shared_libraries.push(lib);
            },
        }
    }
}

/// A socket table of `/proc/net`: the file it was read from and its text.
pub struct SocketTable {
    pub file: String,
    pub content: String,
}

/// The sockets a table lists for the owner of `targets` (none when it reads with an error).
pub open spec fn table_sockets(t: SocketTable, targets: Seq<Seq<char>>) -> Seq<SocketView> {
    if lines(t.content@).len() == 0 {
        seq![]
    } else {
        match socket_lines(lines(t.content@).drop_first(), contains(t.file@, seq!['t', 'c', 'p']), targets) {
            Ok(x) => x,
            Err(_) => seq![],
        }
    }
}

/// The sockets of each table of `ts` in turn.
pub open spec fn tables_sockets(ts: Seq<SocketTable>, targets: Seq<Seq<char>>) -> Seq<SocketView>
    decreases ts.len(),
{
    if ts.len() == 0 {
        seq![]
    } else {
        tables_sockets(ts.drop_last(), targets) + table_sockets(ts.last(), targets)
    }
}

impl DependencyAnalyzer {
    /// The graph node of a process, from the text of its maps report, the link targets of
    /// its file descriptors and the socket tables of the system (read in that order), or
    /// the first error a socket table gives.
    pub fn build_process_node(
        &self,
        pid: u32,
        name: String,
        parent_pid: Option<u32>,
        maps_content: &str,
        fd_targets: Vec<String>,
        socket_tables: &Vec<SocketTable>,
    ) -> (r: Result<ProcessNode, DependencyError>)
        requires
            forall|i: int| 0 <= i < lines(maps_content@).len() ==> !map_line_panics(#[trigger] lines(maps_content@)[i]),
        ensures
            match r {
                Ok(n) => {
                    &&& n.pid == pid && n.name == name && n.ppid == parent_pid
                    &&& n.children@.len() == 0
                    &&& str_views(n.shared_libs@) == shared_libraries_in(maps_content@)
                    &&& maps_described(lines(maps_content@), n.memory_maps@)
                    &&& n.open_files@ == fd_targets@
                    &&& n.dependency_level == 0
                    &&& socket_views(n.sockets@) == tables_sockets(socket_tables@, str_views(fd_targets@))
                    &&& forall|t: int| 0 <= t < socket_tables@.len() ==> lines(#[trigger] socket_tables@[t].content@).len() == 0 || socket_lines(
                        lines(socket_tables@[t].content@).drop_first(),
                        contains(socket_tables@[t].file@, seq!['t', 'c', 'p']),
                        str_views(fd_targets@),
                    ) is Ok
                },
                Err(e) => exists|t: int| 0 <= t < socket_tables@.len() && lines(#[trigger] socket_tables@[t].content@).len() > 0 && socket_lines(
                    lines(socket_tables@[t].content@).drop_first(),
                    contains(socket_tables@[t].file@, seq!['t', 'c', 'p']),
                    str_views(fd_targets@),
                ) == Err::<Seq<SocketView>, DependencyError>(e),
            },
    {
        let shared_libs = self.shared_libraries_from(maps_content);
        let memory_maps = self.memory_maps_from(maps_content);
        let mut sockets: Vec<SocketInfo> = Vec::new();
        let mut t: usize = 0;
        let ghost targets = str_views(fd_targets@);
        assert(socket_views(sockets@) =~= tables_sockets(socket_tables@.take(0), targets));
        while t < socket_tables.len()
            invariant
                t <= socket_tables@.len(),
                targets == str_views(fd_targets@),
                socket_views(sockets@) == tables_sockets(socket_tables@.take(t as int), targets),
                forall|k: int| 0 <= k < t ==> lines(#[trigger] socket_tables@[k].content@).len() == 0 || socket_lines(
                    lines(socket_tables@[k].content@).drop_first(),
                    contains(socket_tables@[k].file@, seq!['t', 'c', 'p']),
                    str_views(fd_targets@),
                ) is Ok,
            decreases socket_tables.len() - t,
        {
            let table = &socket_tables[t];
            let found = self.parse_socket_table(table.content.as_str(), table.file.as_str(), &fd_targets)?;
            let ghost base = socket_views(sockets@);
            assert(socket_tables@.take(t + 1).drop_last() == socket_tables@.take(t as int));
            assert(socket_tables@.take(t + 1).last() == *table);
            assert(table_sockets(*table, targets) == socket_views(found@));
            let mut k: usize = 0;
            assert(base + socket_views(found@).take(0) == base);
            while k < found.len()
                invariant
                    k <= found@.len(),
                    socket_views(sockets@) == base + socket_views(found@).take(k as int),
                decreases found.len() - k,
            {
                let si = &found[k];
                let remote = match &si.remote_addr {
                    Some(a) => Some(a.clone()),
                    None => None,
                };
                let copy = SocketInfo {
                    local_addr: si.local_addr.clone(),
                    remote_addr: remote,
                    state: si.state.clone(),
                    socket_type: si.socket_type.clone(),
                };
                assert(socket_view(copy) == socket_view(found@[k as int]));
                let ghost before = socket_views(sockets@);
                sockets.push(copy);
                assert(socket_views(sockets@) =~= before.push(socket_view(copy)));
                assert(socket_views(found@).take(k + 1) =~= socket_views(found@).take(k as int).push(socket_view(found@[k as int])));
                assert(socket_views(sockets@) =~= base + socket_views(found@).take(k + 1));
                k = k + 1;
            }
            assert(socket_views(found@).take(k as int) == socket_views(found@));
            t = t + 1;
        }
        assert(socket_tables@.take(t as int) == socket_tables@);
        Ok(ProcessNode {
            pid,
            name,
            ppid: parent_pid,
            children: Vec::new(),
            shared_libs,
            memory_maps,
            open_files: fd_targets,
            sockets,
            dependency_level: 0,
        })
    }
}

} // verus!
