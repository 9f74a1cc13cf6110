//! Listening sockets read from the kernel's socket tables.
use vstd::prelude::*;
use crate::num::{parse_uint, parse_unsigned};
use crate::text::{chars_eq, chars_of, str_eq, lines, rfind_char, slice_chars, split_lines, split_words, utf8_len, utf8_len_upto, views_of, words};

verus! {

/// An established connection.
#[derive(Debug, Clone)]
pub struct NetworkConnection {
    pub local_addr: String,
    pub remote_addr: String,
    pub protocol: String,
    pub state: String,
    pub pid: Option<u32>,
    pub process_name: Option<String>,
}

/// A port some process listens on.
#[derive(Debug, Clone)]
pub struct ListeningPort {
    pub port: u16,
    pub protocol: String,
    pub service_name: Option<String>,
    pub pid: Option<u32>,
    pub process_name: Option<String>,
}

/// The characters of an optional string.
pub open spec fn opt_text(o: Option<String>) -> Option<Seq<char>> {
    match o {
        Some(s) => Some(s@),
        None => None,
    }
}

/// The well-known service on `port` for `protocol` (`tcp` or `udp`).
pub open spec fn service_of(port: nat, protocol: Seq<char>) -> Option<Seq<char>> {
    let tcp = protocol == "tcp"@;
    if port == 53 {
        Some("DNS"@)
    } else if !tcp {
        None
    } else if port == 22 {
        Some("SSH"@)
    } else if port == 80 {
        Some("HTTP"@)
    } else if port == 443 {
        Some("HTTPS"@)
    } else if port == 21 {
        Some("FTP"@)
    } else if port == 25 {
        Some("SMTP"@)
    } else if port == 110 {
        Some("POP3"@)
    } else if port == 143 {
        Some("IMAP"@)
    } else if port == 993 {
        Some("IMAPS"@)
    } else if port == 995 {
        Some("POP3S"@)
    } else if port == 3306 {
        Some("MySQL"@)
    } else if port == 5432 {
        Some("PostgreSQL"@)
    } else if port == 6379 {
        Some("Redis"@)
    } else if port == 27017 {
        Some("MongoDB"@)
    } else {
        None
    }
}

/// The name of the well-known service on `port` for `protocol`, if there is one.
pub fn get_service_name(port: u16, protocol: &str) -> (r: Option<String>)
    ensures
        opt_text(r) == service_of(port as nat, protocol@),
{
    proof {
        reveal_strlit("tcp");
        reveal_strlit("DNS");
        reveal_strlit("SSH");
        reveal_strlit("HTTP");
        reveal_strlit("HTTPS");
        reveal_strlit("FTP");
        reveal_strlit("SMTP");
        reveal_strlit("POP3");
        reveal_strlit("IMAP");
        reveal_strlit("IMAPS");
        reveal_strlit("POP3S");
        reveal_strlit("MySQL");
        reveal_strlit("PostgreSQL");
        reveal_strlit("Redis");
        reveal_strlit("MongoDB");
    }
    let tcp = str_eq(protocol, "tcp");
    let name: Option<&str> = if port == 53 {
        Some("DNS")
    } else if !tcp {
        None
    } else if port == 22 {
        Some("SSH")
    } else if port == 80 {
        Some("HTTP")
    } else if port == 443 {
        Some("HTTPS")
    } else if port == 21 {
        Some("FTP")
    } else if port == 25 {
        Some("SMTP")
    } else if port == 110 {
        Some("POP3")
    } else if port == 143 {
        Some("IMAP")
    } else if port == 993 {
        Some("IMAPS")
    } else if port == 995 {
        Some("POP3S")
    } else if port == 3306 {
        Some("MySQL")
    } else if port == 5432 {
        Some("PostgreSQL")
    } else if port == 6379 {
        Some("Redis")
    } else if port == 27017 {
        Some("MongoDB")
    } else {
        None
    };
    match name {
        Some(n) => Some(n.to_owned()),
        None => None,
    }
}

/// The position of the last `c` in `s`, or -1.
pub open spec fn last_pos_of(s: Seq<char>, c: char) -> int
    decreases s.len(),
{
    if s.len() == 0 {
        -1
    } else if s.last() == c {
        s.len() - 1
    } else {
        last_pos_of(s.drop_last(), c)
    }
}

proof fn lemma_last_pos_of(s: Seq<char>, c: char, i: int)
    requires
        0 <= i < s.len(),
        s[i] == c,
        forall|j: int| i < j < s.len() ==> s[j] != c,
    ensures
        last_pos_of(s, c) == i,
    decreases s.len(),
{
    if s.last() != c {
        assert(s.drop_last()[i] == c);
        lemma_last_pos_of(s.drop_last(), c, i);
    }
}

/// The port a row of `/proc/net/tcp` or `/proc/net/udp` shows listening: rows longer
/// than 1024 bytes, with fewer than ten fields, or whose local address has no colon or
/// is longer than 64 bytes are skipped, and so are TCP rows not in state `0A`
/// (LISTEN); the port is the hexadecimal number after the address's last colon.
pub open spec fn listening_port_of(line: Seq<char>, protocol: Seq<char>) -> Option<nat> {
    let parts = words(line);
    if utf8_len(line) > 1024 {
        None
    } else if protocol != "tcp"@ && protocol != "udp"@ {
        None
    } else if parts.len() < 10 {
        None
    } else if !parts[1].contains(':') || utf8_len(parts[1]) > 64 {
        None
    } else if protocol == "tcp"@ && parts[3] != "0A"@ {
        None
    } else {
        parse_unsigned(parts[1].skip(last_pos_of(parts[1], ':') + 1), 16, 0xffff)
    }
}

/// `p` is the entry for `port` read from the `protocol` table.
pub open spec fn port_entry(p: ListeningPort, port: nat, protocol: Seq<char>) -> bool {
    &&& p.port == port
    &&& p.protocol@ == (if protocol == "tcp"@ { "TCP"@ } else { "UDP"@ })
    &&& opt_text(p.service_name) == service_of(port, protocol)
    &&& p.pid is None
    &&& p.process_name is None
}

/// Reads one row of `/proc/net/tcp` (`protocol` = `tcp`) or `/proc/net/udp` (`udp`).
pub fn parse_net_line(line: &str, protocol: &str) -> (r: Option<ListeningPort>)
    ensures
        match listening_port_of(line@, protocol@) {
            Some(port) => r matches Some(p) && port_entry(p, port, protocol@),
            None => r is None,
        },
{
    proof {
        reveal_strlit("tcp");
        reveal_strlit("udp");
        reveal_strlit("0A");
        reveal_strlit("TCP");
        reveal_strlit("UDP");
    }
    let v = chars_of(line);
    if utf8_len_upto(&v, 1024).is_none() {
        return None;
    }
    let tcp = str_eq(protocol, "tcp");
    let udp = str_eq(protocol, "udp");
    if !tcp && !udp {
        return None;
    }
    let parts = split_words(&v);
    if parts.len() < 10 {
        return None;
    }
    let local = &parts[1];
    let state = &parts[3];
    assert(local@ == words(line@)[1]);
    assert(state@ == words(line@)[3]);
    let colon = rfind_char(local.as_slice(), ':');
    let short = utf8_len_upto(local.as_slice(), 64);
    if colon.is_none() || short.is_none() {
        return None;
    }
    let listen = chars_eq(state.as_slice(), &['0', 'A']);
    assert(listen == (state@ == "0A"@)) by {
        assert("0A"@ =~= seq!['0', 'A']);
    }
    if tcp && !listen {
        return None;
    }
    let k = colon.unwrap();
    proof {
        lemma_last_pos_of(local@, ':', k as int);
    }
    let digits = slice_chars(local.as_slice(), k + 1, local.len());
    assert(digits@ == local@.skip(k + 1));
    match parse_uint(&digits, 16, 0xffff) {
        Some(port) => {
            let port16 = port as u16;
            let service_name = get_service_name(port16, protocol);
            let proto = if tcp {
                "TCP".to_owned()
            } else {
                "UDP".to_owned()
            };
            Some(ListeningPort { port: port16, protocol: proto, service_name, pid: None, process_name: None })
        },
        None => None,
    }
}

/// The ports listed in a socket table: the rows after the header line, in order.
pub open spec fn table_ports(rows: Seq<Seq<char>>, protocol: Seq<char>) -> Seq<nat>
    decreases rows.len(),
{
    if rows.len() == 0 {
        Seq::empty()
    } else {
        let init = table_ports(rows.drop_last(), protocol);
        match listening_port_of(rows.last(), protocol) {
            Some(p) => init.push(p),
            None => init,
        }
    }
}

/// The rows of a table after its header line.
pub open spec fn rows_after_header(ls: Seq<Seq<char>>) -> Seq<Seq<char>> {
    if ls.len() == 0 {
        ls
    } else {
        ls.drop_first()
    }
}

/// The listening ports of a whole `/proc/net/tcp` or `/proc/net/udp` text: every row
/// after the first that `parse_net_line` accepts, in order.
pub fn listening_ports_from(content: &str, protocol: &str) -> (r: Vec<ListeningPort>)
    ensures
        r@.len() == table_ports(rows_after_header(lines(content@)), protocol@).len(),
        forall|i: int|
            0 <= i < r@.len() ==> port_entry(
                #[trigger] r@[i],
                table_ports(rows_after_header(lines(content@)), protocol@)[i],
                protocol@,
            ),
{
    let v = chars_of(content);
    let ls = split_lines(&v);
    let ghost rows = rows_after_header(lines(content@));
    let mut r: Vec<ListeningPort> = Vec::new();
    if ls.len() == 0 {
        return r;
    }
    let mut i: usize = 1;
    while i < ls.len()
        invariant
            1 <= i <= ls@.len(),
            views_of(ls@) == lines(content@),
            rows == rows_after_header(lines(content@)),
            r@.len() == table_ports(rows.take(i - 1), protocol@).len(),
            forall|j: int|
                0 <= j < r@.len() ==> port_entry(
                    #[trigger] r@[j],
                    table_ports(rows.take(i - 1), protocol@)[j],
                    protocol@,
                ),
        decreases ls.len() - i,
    {
        let ghost k = i - 1;
        assert(rows.take(k + 1).drop_last() == rows.take(k));
        assert(rows[k] == views_of(ls@)[i as int]);
        assert(rows.take(k + 1).last() == ls@[i as int]@);
        let line = crate::text::string_of_all(ls[i].as_slice());
        match parse_net_line(line.as_str(), protocol) {
            Some(p) => {
                r.push(p);
            },
            None => {},
        }
        i = i + 1;
    }
    assert(rows.take(i - 1) =~= rows);
    r
}

} // verus!
