use vstd::prelude::*;
use crate::text::{
    all_digits, chars_of, decimal, digits_value, find_first, find_last, is_digit, parse_uint,
    parse_uint_at, push_decimal, copy_range, str_equal, string_from, trim, trim_bounds, trim_end,
    trim_start,
};
use crate::order::is_permutation;
use crate::ranking::{rank_order, ranked, text_before, RankKey};

verus! {

// ── Service names ────────────────────────────────────────────────────────────

/// The name of the service that usually listens on `port`, or the empty string.
pub open spec fn service_of(port: u16) -> Seq<char> {
    match port {
        21 => "FTP"@,
        22 => "SSH"@,
        23 => "Telnet"@,
        25 => "SMTP"@,
        53 => "DNS"@,
        80 => "HTTP"@,
        110 => "POP3"@,
        143 => "IMAP"@,
        443 => "HTTPS"@,
        445 => "SMB"@,
        3306 => "MySQL"@,
        3389 => "RDP"@,
        5432 => "PostgreSQL"@,
        5900 => "VNC"@,
        6379 => "Redis"@,
        8080 => "HTTP-Alt"@,
        8443 => "HTTPS-Alt"@,
        27017 => "MongoDB"@,
        _ => ""@,
    }
}

/// Well-known port → service name.
pub fn service_name(port: u16) -> (name: &'static str)
    ensures
        name@ == service_of(port),
{
    match port {
        21 => "FTP",
        22 => "SSH",
        23 => "Telnet",
        25 => "SMTP",
        53 => "DNS",
        80 => "HTTP",
        110 => "POP3",
        143 => "IMAP",
        443 => "HTTPS",
        445 => "SMB",
        3306 => "MySQL",
        3389 => "RDP",
        5432 => "PostgreSQL",
        5900 => "VNC",
        6379 => "Redis",
        8080 => "HTTP-Alt",
        8443 => "HTTPS-Alt",
        27017 => "MongoDB",
        _ => "",
    }
}

// ── Port presets ─────────────────────────────────────────────────────────────

/// The port list of the preset called `name`; any other name gives `1-1024`.
pub open spec fn preset_of(name: Seq<char>) -> Seq<char> {
    if name == "常用"@ {
        "21,22,23,25,53,80,110,143,443,445,3306,3389,5432,5900,6379,8080,8443,27017"@
    } else if name == "Web"@ {
        "80,443,8080,8443,8888,9090,9443"@
    } else if name == "数据库"@ {
        "1433,1521,3306,5432,6379,27017,9200"@
    } else if name == "远程"@ {
        "22,23,3389,5900,5901"@
    } else {
        "1-1024"@
    }
}

/// Common port presets.
pub fn preset_ports(name: &str) -> (ports: &'static str)
    ensures
        ports@ == preset_of(name@),
{
    if str_equal(name, "常用") {
        "21,22,23,25,53,80,110,143,443,445,3306,3389,5432,5900,6379,8080,8443,27017"
    } else if str_equal(name, "Web") {
        "80,443,8080,8443,8888,9090,9443"
    } else if str_equal(name, "数据库") {
        "1433,1521,3306,5432,6379,27017,9200"
    } else if str_equal(name, "远程") {
        "22,23,3389,5900,5901"
    } else {
        "1-1024"
    }
}

// ── Port lists ───────────────────────────────────────────────────────────────

/// `s[i..j]` is one of the pieces that splitting `s` at every `,` gives.
pub open spec fn is_piece(s: Seq<char>, i: int, j: int) -> bool {
    &&& 0 <= i <= j <= s.len()
    &&& (i == 0 || s[i - 1] == ',')
    &&& (j == s.len() || s[j] == ',')
    &&& forall|k: int| i <= k < j ==> s[k] != ','
}

/// A port number as `str::parse::<u16>` reads it, with 0 for what it refuses.
pub open spec fn port_or_zero(s: Seq<char>) -> nat {
    match parse_uint(s, 0xffff) {
        Some(v) => v,
        None => 0,
    }
}

/// Whether one comma-separated piece of a port list names port `p`: a single
/// positive port `n`, or a range `a-b` with `0 < a <= b` (around each number
/// white space is allowed).
pub open spec fn piece_names(piece: Seq<char>, p: int) -> bool {
    let t = trim(piece);
    match t.index_of_first('-') {
        Some(d) => {
            let a = port_or_zero(trim(t.subrange(0, d)));
            let b = port_or_zero(trim(t.subrange(d + 1, t.len() as int)));
            0 < a <= b && a <= p <= b
        },
        None => match parse_uint(t, 0xffff) {
            Some(q) => q > 0 && p == q,
            None => false,
        },
    }
}

/// Whether the port list `s` (such as `80,443,22-25`) names port `p`.
pub open spec fn port_listed(s: Seq<char>, p: int) -> bool {
    exists|i: int, j: int| is_piece(s, i, j) && piece_names(s.subrange(i, j), p)
}

/// The ports that the piece `s[lo..hi]` names, as the bounds of a range
/// (empty where the first bound is larger).
fn piece_range(s: &Vec<char>, lo: usize, hi: usize) -> (r: (u32, u32))
    requires
        lo <= hi <= s@.len(),
    ensures
        1 <= r.0,
        r.1 <= 0xffff,
        forall|p: int| piece_names(s@.subrange(lo as int, hi as int), p) <==> r.0 <= p <= r.1,
{
    let ghost piece = s@.subrange(lo as int, hi as int);
    let (a0, b0) = trim_bounds(s, lo, hi);
    let ghost t = s@.subrange(a0 as int, b0 as int);
    assert(t == trim(piece));
    match find_first(s, a0, b0, '-') {
        Some(dash) => {
            let ghost d = dash - a0;
            proof {
                t.index_of_first_ensures('-');
                match t.index_of_first('-') {
                    Some(k) => assert(dash == a0 + k),
                    None => assert(false),
                }
            }
            let (x0, x1) = trim_bounds(s, a0, dash);
            let (y0, y1) = trim_bounds(s, dash + 1, b0);
            assert(t.subrange(0, d) =~= s@.subrange(a0 as int, dash as int));
            assert(t.subrange(d + 1, t.len() as int) =~= s@.subrange(dash + 1, b0 as int));
            let a = match parse_uint_at(s, x0, x1, 0xffff) {
                Some(v) => v,
                None => 0,
            };
            let b = match parse_uint_at(s, y0, y1, 0xffff) {
                Some(v) => v,
                None => 0,
            };
            if 0 < a && a <= b {
                (a, b)
            } else {
                (1, 0)
            }
        },
        None => {
            assert(t.index_of_first('-') is None);
            match parse_uint_at(s, a0, b0, 0xffff) {
                Some(q) => {
                    if q > 0 {
                        (q, q)
                    } else {
                        (1, 0)
                    }
                },
                None => (1, 0),
            }
        },
    }
}

proof fn lemma_piece_unique(s: Seq<char>, start: int, k: int, i: int, j: int)
    requires
        is_piece(s, i, j),
        0 <= start <= j <= k <= s.len(),
        start == 0 || s[start - 1] == ',',
        forall|m: int| start <= m < k ==> s[m] != ',',
    ensures
        i == start && j == k,
{
    if j < k {
        assert(s[j] != ',');
    }
    if i < start {
        assert(s[start - 1] != ',');
    }
    if i > start {
        assert(s[i - 1] != ',');
    }
}

/// The ports that the pieces of `s` ending before `bound` name are those marked.
pub open spec fn marks_cover(marks: Seq<bool>, s: Seq<char>, bound: int) -> bool {
    &&& marks.len() == 0x10000
    &&& forall|p: int| 0 <= p < 0x10000 ==> (#[trigger] marks[p] <==> exists|i: int, j: int|
        is_piece(s, i, j) && j < bound && piece_names(s.subrange(i, j), p))
}

fn mark_range(marks: &mut Vec<bool>, a: u32, b: u32)
    requires
        old(marks)@.len() == 0x10000,
        1 <= a,
        b <= 0xffff,
    ensures
        final(marks)@.len() == 0x10000,
        forall|p: int| 0 <= p < 0x10000 ==> final(marks)@[p] == (old(marks)@[p] || (a <= p <= b)),
{
    if a > b {
        return;
    }
    let mut p = a;
    while p <= b
        invariant
            marks@.len() == 0x10000,
            1 <= a <= p,
            b <= 0xffff,
            p <= b + 1,
            forall|q: int| 0 <= q < 0x10000 ==> marks@[q] == (old(marks)@[q] || (a <= q < p)),
        decreases b + 1 - p,
    {
        marks.set(p as usize, true);
        p = p + 1;
    }
}

proof fn lemma_marks_step(
    old_marks: Seq<bool>,
    marks: Seq<bool>,
    s: Seq<char>,
    start: int,
    k: int,
    a: int,
    b: int,
)
    requires
        marks_cover(old_marks, s, start),
        0 <= start <= k <= s.len(),
        start == 0 || s[start - 1] == ',',
        forall|m: int| start <= m < k ==> s[m] != ',',
        k == s.len() || s[k] == ',',
        forall|p: int| piece_names(s.subrange(start, k), p) <==> a <= p <= b,
        marks.len() == 0x10000,
        forall|p: int| 0 <= p < 0x10000 ==> marks[p] == (old_marks[p] || (a <= p <= b)),
    ensures
        marks_cover(marks, s, k + 1),
{
    assert(is_piece(s, start, k));
    assert forall|p: int| 0 <= p < 0x10000 implies (#[trigger] marks[p] <==> exists|i: int, j: int|
        is_piece(s, i, j) && j < k + 1 && piece_names(s.subrange(i, j), p)) by {
        if marks[p] {
            if !old_marks[p] {
                assert(is_piece(s, start, k) && k < k + 1 && piece_names(s.subrange(start, k), p));
            } else {
                let (i, j) = choose|i: int, j: int| is_piece(s, i, j) && j < start
                    && piece_names(s.subrange(i, j), p);
                assert(is_piece(s, i, j) && j < k + 1 && piece_names(s.subrange(i, j), p));
            }
        }
        if exists|i: int, j: int| is_piece(s, i, j) && j < k + 1 && piece_names(s.subrange(i, j), p) {
            let (i, j) = choose|i: int, j: int| is_piece(s, i, j) && j < k + 1
                && piece_names(s.subrange(i, j), p);
            if j >= start {
                lemma_piece_unique(s, start, k, i, j);
            }
        }
    }
}

/// Parse "80,443,22-25,8080" into sorted unique port list.
pub fn parse_ports(input: &str) -> (ports: Vec<u16>)
    ensures
        forall|i: int, j: int| 0 <= i < j < ports@.len() ==> ports@[i] < ports@[j],
        forall|p: u16| ports@.contains(p) <==> port_listed(input@, p as int),
        ports@.len() <= 0x10000,
{
    let s = chars_of(input);
    let n = s.len();
    let mut marks: Vec<bool> = vec![false; 0x10000];
    let mut start: usize = 0;
    let mut k: usize = 0;
    proof {
        assert forall|p: int| 0 <= p < 0x10000 implies (#[trigger] marks@[p] <==> exists|i: int, j: int|
            is_piece(s@, i, j) && j < 0 && piece_names(s@.subrange(i, j), p)) by {}
    }
    while k < n
        invariant
            s@ == input@,
            n == s@.len(),
            start <= k <= n,
            start == 0 || s@[start - 1] == ',',
            forall|m: int| start <= m < k ==> s@[m] != ',',
            marks_cover(marks@, s@, start as int),
        decreases n - k,
    {
        if s[k] == ',' {
            let (a, b) = piece_range(&s, start, k);
            let ghost old_marks = marks@;
            mark_range(&mut marks, a, b);
            proof { lemma_marks_step(old_marks, marks@, s@, start as int, k as int, a as int, b as int); }
            start = k + 1;
        }
        k = k + 1;
    }
    let (a, b) = piece_range(&s, start, n);
    let ghost old_marks = marks@;
    mark_range(&mut marks, a, b);
    proof { lemma_marks_step(old_marks, marks@, s@, start as int, n as int, a as int, b as int); }
    let mut ports: Vec<u16> = Vec::new();
    let mut p: u32 = 0;
    while p < 0x10000
        invariant
            marks_cover(marks@, s@, (n + 1) as int),
            s@ == input@,
            n == s@.len(),
            p <= 0x10000,
            ports@.len() <= p,
            forall|i: int, j: int| 0 <= i < j < ports@.len() ==> ports@[i] < ports@[j],
            forall|i: int| 0 <= i < ports@.len() ==> ports@[i] < p,
            forall|q: u16| q < p ==> (ports@.contains(q) <==> marks@[q as int]),
            forall|q: u16| q >= p ==> !ports@.contains(q),
        decreases 0x10000 - p,
    {
        let ghost before = ports@;
        if marks[p as usize] {
            ports.push(p as u16);
            proof {
                assert(ports@ == before.push(p as u16));
                assert forall|q: u16| q < p + 1 implies (ports@.contains(q) <==> marks@[q as int]) by {
                    if q < p {
                        if ports@.contains(q) {
                            let i = choose|i: int| 0 <= i < ports@.len() && ports@[i] == q;
                            if i < before.len() {
                                assert(before.contains(q));
                            }
                        }
                        if before.contains(q) {
                            let i = choose|i: int| 0 <= i < before.len() && before[i] == q;
                            assert(ports@[i] == q);
                        }
                    } else {
                        assert(ports@[before.len() as int] == q);
                    }
                }
                assert forall|q: u16| q >= p + 1 implies !ports@.contains(q) by {
                    if ports@.contains(q) {
                        let i = choose|i: int| 0 <= i < ports@.len() && ports@[i] == q;
                        if i < before.len() {
                            assert(before.contains(q));
                        }
                    }
                }
            }
        }
        p = p + 1;
    }
    proof {
        assert forall|q: u16| ports@.contains(q) <==> port_listed(input@, q as int) by {
            assert(marks@[q as int] == (exists|i: int, j: int| is_piece(s@, i, j) && j < n + 1
                && piece_names(s@.subrange(i, j), q as int)));
        }
    }
    ports
}

// ── Laws of port lists ───────────────────────────────────────────────────────

/// A list with no comma is a single piece.
proof fn lemma_single_piece(s: Seq<char>, p: int)
    requires
        forall|k: int| 0 <= k < s.len() ==> s[k] != ',',
    ensures
        port_listed(s, p) <==> piece_names(s, p),
{
    assert(s.subrange(0, s.len() as int) =~= s);
    assert(is_piece(s, 0, s.len() as int));
    if port_listed(s, p) {
        let (i, j) = choose|i: int, j: int| is_piece(s, i, j) && piece_names(s.subrange(i, j), p);
        assert(i == 0 && j == s.len());
    }
}

/// Joining two port lists with a comma names the ports that either names.
pub proof fn law_joined_lists(x: Seq<char>, y: Seq<char>, p: int)
    ensures
        port_listed(x + seq![','] + y, p) <==> (port_listed(x, p) || port_listed(y, p)),
{
    let s = x + seq![','] + y;
    let n = x.len() as int;
    assert(s[n] == ',');
    assert(forall|k: int| 0 <= k < n ==> s[k] == x[k]);
    assert(forall|k: int| 0 <= k < y.len() ==> s[n + 1 + k] == y[k]);
    if port_listed(x, p) {
        let (i, j) = choose|i: int, j: int| is_piece(x, i, j) && piece_names(x.subrange(i, j), p);
        assert(s.subrange(i, j) =~= x.subrange(i, j));
        assert(is_piece(s, i, j));
    }
    if port_listed(y, p) {
        let (i, j) = choose|i: int, j: int| is_piece(y, i, j) && piece_names(y.subrange(i, j), p);
        assert(s.subrange(n + 1 + i, n + 1 + j) =~= y.subrange(i, j));
        assert(is_piece(s, n + 1 + i, n + 1 + j));
    }
    if port_listed(s, p) {
        let (i, j) = choose|i: int, j: int| is_piece(s, i, j) && piece_names(s.subrange(i, j), p);
        if j <= n {
            assert(s.subrange(i, j) =~= x.subrange(i, j));
            assert(is_piece(x, i, j));
        } else if i > n {
            assert(s.subrange(i, j) =~= y.subrange(i - n - 1, j - n - 1));
            assert(is_piece(y, i - n - 1, j - n - 1));
        } else {
            assert(s[n] != ',');
        }
    }
}

/// The decimal form of a port names that port and no other.
proof fn lemma_decimal_names(q: nat, p: int)
    requires
        0 < q <= 0xffff,
    ensures
        port_listed(decimal(q), p) <==> p == q,
        forall|k: int| 0 <= k < decimal(q).len() ==> decimal(q)[k] != ',',
{
    let d = decimal(q);
    crate::text::lemma_decimal_digits(q);
    assert(is_digit(d[0]) && is_digit(d.last()));
    assert(trim_start(d) == d);
    assert(trim_end(d) == d);
    d.index_of_first_ensures('-');
    if let Some(i) = d.index_of_first('-') {
        assert(is_digit(d[i]));
    }
    assert forall|k: int| 0 <= k < d.len() implies #[trigger] d[k] != ',' by {
        assert(is_digit(d[k]));
    }
    lemma_single_piece(d, p);
}

/// The ports written as a port list: their decimal forms joined by commas.
pub open spec fn joined_ports(ports: Seq<u16>) -> Seq<char>
    decreases ports.len(),
{
    if ports.len() == 0 {
        Seq::empty()
    } else if ports.len() == 1 {
        decimal(ports[0] as nat)
    } else {
        joined_ports(ports.drop_last()) + seq![','] + decimal(ports.last() as nat)
    }
}

proof fn lemma_joined_names(ports: Seq<u16>, p: int)
    requires
        forall|k: int| 0 <= k < ports.len() ==> #[trigger] ports[k] > 0,
    ensures
        port_listed(joined_ports(ports), p) <==> exists|k: int| 0 <= k < ports.len() && ports[k] == p,
    decreases ports.len(),
{
    if ports.len() == 0 {
        let e = Seq::<char>::empty();
        lemma_single_piece(e, p);
        assert(trim_start(e) == e && trim_end(e) == e);
        e.index_of_first_ensures('-');
    } else if ports.len() == 1 {
        lemma_decimal_names(ports[0] as nat, p);
    } else {
        let init = ports.drop_last();
        lemma_joined_names(init, p);
        lemma_decimal_names(ports.last() as nat, p);
        law_joined_lists(joined_ports(init), decimal(ports.last() as nat), p);
        if exists|k: int| 0 <= k < ports.len() && ports[k] == p {
            let k = choose|k: int| 0 <= k < ports.len() && ports[k] == p;
            if k < init.len() {
                assert(init[k] == p);
            }
        }
        if exists|k: int| 0 <= k < init.len() && init[k] == p {
            let k = choose|k: int| 0 <= k < init.len() && init[k] == p;
            assert(ports[k] == p);
        }
    }
}

proof fn lemma_same_members(a: Seq<u16>, b: Seq<u16>)
    requires
        forall|i: int, j: int| 0 <= i < j < a.len() ==> a[i] < a[j],
        forall|i: int, j: int| 0 <= i < j < b.len() ==> b[i] < b[j],
        forall|p: u16| a.contains(p) <==> b.contains(p),
    ensures
        a == b,
    decreases a.len(),
{
    if a.len() == 0 {
        if b.len() > 0 {
            assert(b.contains(b[0]));
        }
        assert(a =~= b);
    } else {
        assert(a.contains(a[0]));
        assert(b.len() > 0);
        assert(b.contains(b[0]));
        let j = choose|j: int| 0 <= j < b.len() && b[j] == a[0];
        let i = choose|i: int| 0 <= i < a.len() && a[i] == b[0];
        assert(a[0] == b[0]);
        let (a2, b2) = (a.drop_first(), b.drop_first());
        assert forall|p: u16| a2.contains(p) <==> b2.contains(p) by {
            if a2.contains(p) {
                let k = choose|k: int| 0 <= k < a2.len() && a2[k] == p;
                assert(a[k + 1] == p && a.contains(p));
                let m = choose|m: int| 0 <= m < b.len() && b[m] == p;
                assert(m != 0);
                assert(b2[m - 1] == p);
            }
            if b2.contains(p) {
                let k = choose|k: int| 0 <= k < b2.len() && b2[k] == p;
                assert(b[k + 1] == p && b.contains(p));
                let m = choose|m: int| 0 <= m < a.len() && a[m] == p;
                assert(m != 0);
                assert(a2[m - 1] == p);
            }
        }
        lemma_same_members(a2, b2);
        assert(a =~= b) by {
            assert forall|k: int| 0 <= k < a.len() implies a[k] == b[k] by {
                if k > 0 {
                    assert(a2[k - 1] == b2[k - 1]);
                }
            }
        }
    }
}

/// Writing ascending ports as a list and reading it back gives the same
/// ports: `r`, the result of `parse_ports` on the written list (ascending,
/// holding the ports the list names), is `ports`.
pub proof fn law_ports_round_trip(ports: Seq<u16>, r: Seq<u16>)
    requires
        forall|i: int, j: int| 0 <= i < j < ports.len() ==> ports[i] < ports[j],
        forall|k: int| 0 <= k < ports.len() ==> #[trigger] ports[k] > 0,
        forall|i: int, j: int| 0 <= i < j < r.len() ==> r[i] < r[j],
        forall|p: u16| r.contains(p) <==> port_listed(joined_ports(ports), p as int),
    ensures
        r == ports,
{
    assert forall|p: u16| r.contains(p) <==> ports.contains(p) by {
        lemma_joined_names(ports, p as int);
        if ports.contains(p) {
            let k = choose|k: int| 0 <= k < ports.len() && ports[k] == p;
            assert(ports[k] == p as int);
        }
    }
    lemma_same_members(r, ports);
}

/// The ports of the Common preset, ascending.
pub open spec fn common_ports() -> Seq<u16> {
    seq![21u16, 22, 23, 25, 53, 80, 110, 143, 443, 445, 3306, 3389, 5432, 5900, 6379, 8080, 8443, 27017]
}

proof fn lemma_common_preset_text()
    ensures
        preset_of("常用"@) == joined_ports(common_ports()),
{
    reveal_strlit("21,22,23,25,53,80,110,143,443,445,3306,3389,5432,5900,6379,8080,8443,27017");
    reveal_with_fuel(joined_ports, 19);
    reveal_with_fuel(decimal, 6);
    assert("21,22,23,25,53,80,110,143,443,445,3306,3389,5432,5900,6379,8080,8443,27017"@ =~= joined_ports(
        common_ports(),
    ));
}

/// The Common preset lists exactly the ports that have a service name.
pub proof fn law_common_preset_is_named_services(p: u16)
    ensures
        port_listed(preset_of("常用"@), p as int) <==> service_of(p) != ""@,
{
    lemma_common_preset_text();
    let c = common_ports();
    lemma_joined_names(c, p as int);
    reveal_strlit("");
    reveal_strlit("FTP");
    reveal_strlit("SSH");
    reveal_strlit("Telnet");
    reveal_strlit("SMTP");
    reveal_strlit("DNS");
    reveal_strlit("HTTP");
    reveal_strlit("POP3");
    reveal_strlit("IMAP");
    reveal_strlit("HTTPS");
    reveal_strlit("SMB");
    reveal_strlit("MySQL");
    reveal_strlit("RDP");
    reveal_strlit("PostgreSQL");
    reveal_strlit("VNC");
    reveal_strlit("Redis");
    reveal_strlit("HTTP-Alt");
    reveal_strlit("HTTPS-Alt");
    reveal_strlit("MongoDB");
    if service_of(p) != ""@ {
        assert(exists|k: int| 0 <= k < c.len() && c[k] == p as int) by {
            if p == 21 { assert(c[0] == p); }
            else if p == 22 { assert(c[1] == p); }
            else if p == 23 { assert(c[2] == p); }
            else if p == 25 { assert(c[3] == p); }
            else if p == 53 { assert(c[4] == p); }
            else if p == 80 { assert(c[5] == p); }
            else if p == 110 { assert(c[6] == p); }
            else if p == 143 { assert(c[7] == p); }
            else if p == 443 { assert(c[8] == p); }
            else if p == 445 { assert(c[9] == p); }
            else if p == 3306 { assert(c[10] == p); }
            else if p == 3389 { assert(c[11] == p); }
            else if p == 5432 { assert(c[12] == p); }
            else if p == 5900 { assert(c[13] == p); }
            else if p == 6379 { assert(c[14] == p); }
            else if p == 8080 { assert(c[15] == p); }
            else if p == 8443 { assert(c[16] == p); }
            else { assert(c[17] == p); }
        }
    } else {
        assert(""@.len() == 0);
        assert forall|k: int| 0 <= k < c.len() implies c[k] != p as int by {
            assert(service_of(c[k]).len() > 0) by {
                if k == 0 { assert(c[k] == 21); assert(service_of(c[k]).len() > 0); }
                else if k == 1 { assert(c[k] == 22); assert(service_of(c[k]).len() > 0); }
                else if k == 2 { assert(c[k] == 23); assert(service_of(c[k]).len() > 0); }
                else if k == 3 { assert(c[k] == 25); assert(service_of(c[k]).len() > 0); }
                else if k == 4 { assert(c[k] == 53); assert(service_of(c[k]).len() > 0); }
                else if k == 5 { assert(c[k] == 80); assert(service_of(c[k]).len() > 0); }
                else if k == 6 { assert(c[k] == 110); assert(service_of(c[k]).len() > 0); }
                else if k == 7 { assert(c[k] == 143); assert(service_of(c[k]).len() > 0); }
                else if k == 8 { assert(c[k] == 443); assert(service_of(c[k]).len() > 0); }
                else if k == 9 { assert(c[k] == 445); assert(service_of(c[k]).len() > 0); }
                else if k == 10 { assert(c[k] == 3306); assert(service_of(c[k]).len() > 0); }
                else if k == 11 { assert(c[k] == 3389); assert(service_of(c[k]).len() > 0); }
                else if k == 12 { assert(c[k] == 5432); assert(service_of(c[k]).len() > 0); }
                else if k == 13 { assert(c[k] == 5900); assert(service_of(c[k]).len() > 0); }
                else if k == 14 { assert(c[k] == 6379); assert(service_of(c[k]).len() > 0); }
                else if k == 15 { assert(c[k] == 8080); assert(service_of(c[k]).len() > 0); }
                else if k == 16 { assert(c[k] == 8443); assert(service_of(c[k]).len() > 0); }
                else { assert(c[k] == 27017); assert(service_of(c[k]).len() > 0); }
            }
        }
    }
}

proof fn lemma_listed_members(ports: Seq<u16>, p: u16)
    requires
        forall|k: int| 0 <= k < ports.len() ==> #[trigger] ports[k] > 0,
    ensures
        port_listed(joined_ports(ports), p as int) <==> ports.contains(p),
{
    lemma_joined_names(ports, p as int);
    if ports.contains(p) {
        let k = choose|k: int| 0 <= k < ports.len() && ports[k] == p;
        assert(ports[k] == p as int);
    }
}

proof fn lemma_web_preset_text()
    ensures
        preset_of("Web"@) == joined_ports(seq![80u16, 443, 8080, 8443, 8888, 9090, 9443]),
{
    reveal_strlit("常用");
    reveal_strlit("Web");
    reveal_strlit("80,443,8080,8443,8888,9090,9443");
    assert("Web"@.len() == 3 && "常用"@.len() == 2);
    assert(preset_of("Web"@) == "80,443,8080,8443,8888,9090,9443"@);
    reveal_with_fuel(joined_ports, 8);
    reveal_with_fuel(decimal, 5);
    assert("80,443,8080,8443,8888,9090,9443"@ =~= joined_ports(seq![80u16, 443, 8080, 8443, 8888, 9090, 9443]));
}

proof fn lemma_database_preset_text()
    ensures
        preset_of("数据库"@) == joined_ports(seq![1433u16, 1521, 3306, 5432, 6379, 27017, 9200]),
{
    reveal_strlit("常用");
    reveal_strlit("Web");
    reveal_strlit("数据库");
    reveal_strlit("1433,1521,3306,5432,6379,27017,9200");
    assert("数据库"@.len() == 3 && "常用"@.len() == 2 && "Web"@[0] == 'W' && "数据库"@[0] == '数');
    assert(preset_of("数据库"@) == "1433,1521,3306,5432,6379,27017,9200"@);
    reveal_with_fuel(joined_ports, 8);
    reveal_with_fuel(decimal, 6);
    assert("1433,1521,3306,5432,6379,27017,9200"@ =~= joined_ports(seq![1433u16, 1521, 3306, 5432, 6379, 27017, 9200]));
}

proof fn lemma_remote_preset_text()
    ensures
        preset_of("远程"@) == joined_ports(seq![22u16, 23, 3389, 5900, 5901]),
{
    reveal_strlit("常用");
    reveal_strlit("Web");
    reveal_strlit("数据库");
    reveal_strlit("远程");
    reveal_strlit("22,23,3389,5900,5901");
    assert("远程"@.len() == 2 && "常用"@[0] == '常' && "远程"@[0] == '远' && "数据库"@.len() == 3 && "Web"@.len() == 3);
    assert(preset_of("远程"@) == "22,23,3389,5900,5901"@);
    reveal_with_fuel(joined_ports, 6);
    reveal_with_fuel(decimal, 5);
    assert("22,23,3389,5900,5901"@ =~= joined_ports(seq![22u16, 23, 3389, 5900, 5901]));
}

/// The Web, Database and Remote presets list exactly these ports.
pub proof fn law_other_presets(p: u16)
    ensures
        port_listed(preset_of("Web"@), p as int) <==> seq![80u16, 443, 8080, 8443, 8888, 9090, 9443].contains(p),
        port_listed(preset_of("数据库"@), p as int) <==> seq![1433u16, 1521, 3306, 5432, 6379, 27017, 9200].contains(p),
        port_listed(preset_of("远程"@), p as int) <==> seq![22u16, 23, 3389, 5900, 5901].contains(p),
{
    lemma_web_preset_text();
    lemma_database_preset_text();
    lemma_remote_preset_text();
    lemma_listed_members(seq![80u16, 443, 8080, 8443, 8888, 9090, 9443], p);
    lemma_listed_members(seq![1433u16, 1521, 3306, 5432, 6379, 27017, 9200], p);
    lemma_listed_members(seq![22u16, 23, 3389, 5900, 5901], p);
}

// ── Host lists ───────────────────────────────────────────────────────────────

/// The pieces of `s` between its dots.
pub open spec fn split_dots(s: Seq<char>) -> Seq<Seq<char>>
    decreases s.len(),
{
    match s.index_of_first('.') {
        Some(d) => {
            proof {
                s.index_of_first_ensures('.');
            }
            seq![s.subrange(0, d)] + split_dots(s.subrange(d + 1, s.len() as int))
        },
        None => seq![s],
    }
}

/// One part of a dotted IPv4 address as `std` reads it: one to three digits,
/// no leading zero, at most 255.
pub open spec fn is_octet(g: Seq<char>) -> bool {
    &&& 1 <= g.len() <= 3
    &&& all_digits(g)
    &&& (g.len() == 1 || g[0] != '0')
    &&& digits_value(g) <= 255
}

/// The four parts of `s` where `s` is a dotted IPv4 address (what
/// `IpAddr::from_str` reads as `IpAddr::V4`).
pub open spec fn ipv4_octets(s: Seq<char>) -> Option<Seq<nat>> {
    let g = split_dots(s);
    if g.len() == 4 && (forall|i: int| 0 <= i < 4 ==> is_octet(#[trigger] g[i])) {
        Some(Seq::new(4, |i: int| digits_value(g[i])))
    } else {
        None
    }
}

/// A range of hosts `a.b.c.x-y`: the text up to the last dot, `x` and `y`.
pub open spec fn host_range(t: Seq<char>) -> Option<(Seq<char>, nat, nat)> {
    match t.index_of_last('-') {
        Some(dash) => match parse_uint(t.subrange(dash + 1, t.len() as int), 255) {
            Some(end) => {
                let base = t.subrange(0, dash);
                match base.index_of_last('.') {
                    Some(dot) => match parse_uint(base.subrange(dot + 1, base.len() as int), 255) {
                        Some(start) => Some((base.subrange(0, dot + 1), start, end)),
                        None => None,
                    },
                    None => None,
                }
            },
            None => None,
        },
        None => None,
    }
}

/// A `/24` network `a.b.c.d/24`: its address. A suffix that is no `u8` counts as 24.
pub open spec fn network24(t: Seq<char>) -> Option<Seq<nat>> {
    match t.index_of_first('/') {
        Some(slash) => {
            let bits = match parse_uint(t.subrange(slash + 1, t.len() as int), 255) {
                Some(b) => b,
                None => 24,
            };
            if bits == 24 {
                ipv4_octets(t.subrange(0, slash))
            } else {
                None
            }
        },
        None => None,
    }
}

pub open spec fn dotted(a: nat, b: nat, c: nat, d: nat) -> Seq<char> {
    decimal(a) + seq!['.'] + decimal(b) + seq!['.'] + decimal(c) + seq!['.'] + decimal(d)
}

/// The hosts that the target `input` names: a range `a.b.c.x-y` gives the hosts
/// `x` to `y` (none where `x > y`), a network `a.b.c.d/24` its hosts 1 to 254,
/// anything else the trimmed text itself.
pub open spec fn hosts_of(input: Seq<char>) -> Seq<Seq<char>> {
    let t = trim(input);
    match host_range(t) {
        Some((prefix, start, end)) => Seq::new(
            if start <= end { (end - start + 1) as nat } else { 0 },
            |k: int| prefix + decimal((start + k) as nat),
        ),
        None => match network24(t) {
            Some(o) => Seq::new(254, |k: int| dotted(o[0], o[1], o[2], (k + 1) as nat)),
            None => seq![t],
        },
    }
}

/// Checks one octet `s[lo..hi]` of a dotted address.
fn octet_at(s: &Vec<char>, lo: usize, hi: usize) -> (r: Option<u8>)
    requires
        lo <= hi <= s@.len(),
    ensures
        match r {
            Some(v) => is_octet(s@.subrange(lo as int, hi as int))
                && v == digits_value(s@.subrange(lo as int, hi as int)),
            None => !is_octet(s@.subrange(lo as int, hi as int)),
        },
{
    let ghost g = s@.subrange(lo as int, hi as int);
    if hi - lo < 1 || hi - lo > 3 {
        return None;
    }
    let mut i = lo;
    while i < hi
        invariant
            lo <= i <= hi <= s@.len(),
            g == s@.subrange(lo as int, hi as int),
            forall|k: int| lo <= k < i ==> is_digit(s@[k]),
        decreases hi - i,
    {
        if !('0' <= s[i] && s[i] <= '9') {
            assert(!is_digit(g[i - lo]));
            return None;
        }
        i = i + 1;
    }
    assert(all_digits(g)) by {
        assert forall|k: int| 0 <= k < g.len() implies is_digit(#[trigger] g[k]) by {
            assert(g[k] == s@[lo + k]);
        }
    }
    if hi - lo > 1 && s[lo] == '0' {
        return None;
    }
    match parse_uint_at(s, lo, hi, 255) {
        Some(v) => Some(v as u8),
        None => None,
    }
}

proof fn lemma_split_dots_step(s: Seq<char>, lo: int, hi: int, d: int)
    requires
        0 <= lo <= d < hi <= s.len(),
        s.subrange(lo, hi).index_of_first('.') == Some(d - lo),
    ensures
        split_dots(s.subrange(lo, hi)) == seq![s.subrange(lo, d)] + split_dots(s.subrange(d + 1, hi)),
{
    let t = s.subrange(lo, hi);
    assert(t.subrange(0, d - lo) =~= s.subrange(lo, d));
    assert(t.subrange(d - lo + 1, t.len() as int) =~= s.subrange(d + 1, hi));
}

/// Reads `s[lo..hi]` as a dotted IPv4 address.
fn ipv4_at(s: &Vec<char>, lo: usize, hi: usize) -> (r: Option<(u8, u8, u8, u8)>)
    requires
        lo <= hi <= s@.len(),
    ensures
        match ipv4_octets(s@.subrange(lo as int, hi as int)) {
            Some(o) => r == Some((o[0] as u8, o[1] as u8, o[2] as u8, o[3] as u8)),
            None => r is None,
        },
{
    let ghost t = s@.subrange(lo as int, hi as int);
    let d1 = match find_first(s, lo, hi, '.') {
        Some(d) => d,
        None => {
            assert(split_dots(t) == seq![t]);
            return None;
        },
    };
    proof {
        t.index_of_first_ensures('.');
        lemma_split_dots_step(s@, lo as int, hi as int, d1 as int);
    }
    let ghost t1 = s@.subrange(d1 + 1, hi as int);
    let d2 = match find_first(s, d1 + 1, hi, '.') {
        Some(d) => d,
        None => {
            assert(split_dots(t1) == seq![t1]);
            assert(split_dots(t).len() == 2);
            return None;
        },
    };
    proof {
        t1.index_of_first_ensures('.');
        lemma_split_dots_step(s@, d1 + 1, hi as int, d2 as int);
    }
    let ghost t2 = s@.subrange(d2 + 1, hi as int);
    let d3 = match find_first(s, d2 + 1, hi, '.') {
        Some(d) => d,
        None => {
            assert(split_dots(t2) == seq![t2]);
            assert(split_dots(t).len() == 3);
            return None;
        },
    };
    proof {
        t2.index_of_first_ensures('.');
        lemma_split_dots_step(s@, d2 + 1, hi as int, d3 as int);
    }
    let ghost t3 = s@.subrange(d3 + 1, hi as int);
    let ghost g = split_dots(t);
    match find_first(s, d3 + 1, hi, '.') {
        Some(d4) => {
            proof {
                t3.index_of_first_ensures('.');
                lemma_split_dots_step(s@, d3 + 1, hi as int, d4 as int);
                assert(g.len() > 4);
            }
            return None;
        },
        None => {
            assert(split_dots(t3) == seq![t3]);
        },
    }
    assert(g =~= seq![
        s@.subrange(lo as int, d1 as int),
        s@.subrange(d1 + 1, d2 as int),
        s@.subrange(d2 + 1, d3 as int),
        t3,
    ]);
    let a = octet_at(s, lo, d1);
    let b = octet_at(s, d1 + 1, d2);
    let c = octet_at(s, d2 + 1, d3);
    let d = octet_at(s, d3 + 1, hi);
    match (a, b, c, d) {
        (Some(a), Some(b), Some(c), Some(d)) => {
            assert(forall|i: int| 0 <= i < 4 ==> is_octet(#[trigger] g[i]));
            Some((a, b, c, d))
        },
        _ => {
            assert(!is_octet(g[0]) || !is_octet(g[1]) || !is_octet(g[2]) || !is_octet(g[3]));
            None
        },
    }
}

/// The hosts `prefix` + `i` for `i` from `start` to `end`.
fn range_hosts(prefix: &Vec<char>, start: u32, end: u32) -> (hosts: Vec<String>)
    requires
        end <= 255,
    ensures
        hosts@.len() == (if start <= end { (end - start + 1) as nat } else { 0 }),
        forall|k: int| 0 <= k < hosts@.len() ==> #[trigger] hosts@[k]@ == prefix@ + decimal((start + k) as nat),
{
    let mut hosts: Vec<String> = Vec::new();
    if start > end {
        return hosts;
    }
    let mut i = start;
    while i <= end
        invariant
            start <= i <= end + 1,
            end <= 255,
            hosts@.len() == i - start,
            forall|k: int| 0 <= k < hosts@.len() ==> #[trigger] hosts@[k]@ == prefix@ + decimal((start + k) as nat),
        decreases end + 1 - i,
    {
        let mut v = prefix.clone();
        push_decimal(&mut v, i as u64);
        hosts.push(string_from(&v));
        i = i + 1;
    }
    hosts
}

/// The hosts 1 to 254 of the network `a.b.c.0/24`.
fn network_hosts(a: u8, b: u8, c: u8) -> (hosts: Vec<String>)
    ensures
        hosts@.len() == 254,
        forall|k: int| 0 <= k < 254 ==> #[trigger] hosts@[k]@ == dotted(a as nat, b as nat, c as nat, (k + 1) as nat),
{
    let mut hosts: Vec<String> = Vec::new();
    let mut i: u64 = 1;
    while i <= 254
        invariant
            1 <= i <= 255,
            hosts@.len() == i - 1,
            forall|k: int| 0 <= k < hosts@.len() ==> #[trigger] hosts@[k]@ == dotted(a as nat, b as nat, c as nat, (k + 1) as nat),
        decreases 255 - i,
    {
        let mut v: Vec<char> = Vec::new();
        push_decimal(&mut v, a as u64);
        v.push('.');
        push_decimal(&mut v, b as u64);
        v.push('.');
        push_decimal(&mut v, c as u64);
        v.push('.');
        push_decimal(&mut v, i);
        assert(v@ =~= dotted(a as nat, b as nat, c as nat, i as nat));
        hosts.push(string_from(&v));
        i = i + 1;
    }
    hosts
}

/// Reads `s[lo..hi]` as a range of hosts (see `host_range`), giving the
/// position of its last dot and the two bounds.
fn range_at(s: &Vec<char>, lo: usize, hi: usize) -> (r: Option<(usize, u32, u32)>)
    requires
        lo <= hi <= s@.len(),
    ensures
        match host_range(s@.subrange(lo as int, hi as int)) {
            Some((prefix, start, end)) => match r {
                Some((dot, a, b)) => lo <= dot < hi && prefix == s@.subrange(lo as int, dot + 1)
                    && a == start && b == end && b <= 255,
                None => false,
            },
            None => r is None,
        },
{
    let ghost t = s@.subrange(lo as int, hi as int);
    let dash = match find_last(s, lo, hi, '-') {
        Some(dash) => dash,
        None => return None,
    };
    proof {
        t.index_of_last_ensures('-');
        match t.index_of_last('-') {
            Some(k) => assert(dash == lo + k),
            None => assert(false),
        }
        assert(t.subrange(dash - lo + 1, t.len() as int) =~= s@.subrange(dash + 1, hi as int));
        assert(t.subrange(0, dash - lo) =~= s@.subrange(lo as int, dash as int));
    }
    let end = match parse_uint_at(s, dash + 1, hi, 255) {
        Some(end) => end,
        None => return None,
    };
    let ghost base = s@.subrange(lo as int, dash as int);
    let dot = match find_last(s, lo, dash, '.') {
        Some(dot) => dot,
        None => return None,
    };
    proof {
        base.index_of_last_ensures('.');
        match base.index_of_last('.') {
            Some(k) => assert(dot == lo + k),
            None => assert(false),
        }
        assert(base.subrange(dot - lo + 1, base.len() as int) =~= s@.subrange(dot + 1, dash as int));
        assert(base.subrange(0, dot - lo + 1) =~= s@.subrange(lo as int, dot + 1));
    }
    match parse_uint_at(s, dot + 1, dash, 255) {
        Some(start) => Some((dot, start, end)),
        None => None,
    }
}

/// Reads `s[lo..hi]` as a `/24` network (see `network24`), giving its first three parts.
fn network_at(s: &Vec<char>, lo: usize, hi: usize) -> (r: Option<(u8, u8, u8)>)
    requires
        lo <= hi <= s@.len(),
    ensures
        match network24(s@.subrange(lo as int, hi as int)) {
            Some(o) => r == Some((o[0] as u8, o[1] as u8, o[2] as u8)),
            None => r is None,
        },
{
    let ghost t = s@.subrange(lo as int, hi as int);
    let slash = match find_first(s, lo, hi, '/') {
        Some(slash) => slash,
        None => return None,
    };
    proof {
        t.index_of_first_ensures('/');
        match t.index_of_first('/') {
            Some(k) => assert(slash == lo + k),
            None => assert(false),
        }
        assert(t.subrange(slash - lo + 1, t.len() as int) =~= s@.subrange(slash + 1, hi as int));
        assert(t.subrange(0, slash - lo) =~= s@.subrange(lo as int, slash as int));
    }
    let bits = match parse_uint_at(s, slash + 1, hi, 255) {
        Some(b) => b,
        None => 24,
    };
    if bits != 24 {
        return None;
    }
    match ipv4_at(s, lo, slash) {
        Some((a, b, c, _d)) => Some((a, b, c)),
        None => None,
    }
}

/// Parse "192.168.1.1" or "192.168.1.1-10" into a list of IPs
pub fn parse_hosts(input: &str) -> (hosts: Vec<String>)
    ensures
        hosts@.len() == hosts_of(input@).len(),
        forall|k: int| 0 <= k < hosts@.len() ==> #[trigger] hosts@[k]@ == hosts_of(input@)[k],
        hosts@.len() <= 256,
{
    let s = chars_of(input);
    let (lo, hi) = trim_bounds(&s, 0, s.len());
    let ghost t = s@.subrange(lo as int, hi as int);
    assert(s@.subrange(0, s@.len() as int) =~= input@);
    assert(t == trim(input@));
    // Range: 192.168.1.1-20
    if let Some((dot, start, end)) = range_at(&s, lo, hi) {
        let prefix = copy_range(&s, lo, dot + 1);
        return range_hosts(&prefix, start, end);
    }
    // CIDR /24: 192.168.1.0/24
    if let Some((a, b, c)) = network_at(&s, lo, hi) {
        return network_hosts(a, b, c);
    }
    // Single IP or hostname
    let only = copy_range(&s, lo, hi);
    let mut hosts: Vec<String> = Vec::new();
    hosts.push(string_from(&only));
    hosts
}

// ── The work list ───────────────────────────────────────────────────────────

/// Every port of every host, host by host: job `k` probes host `k / p` at
/// port `k % p`, where `p` is the number of ports.
pub open spec fn jobs_listed(jobs: Seq<(String, u16)>, hosts: Seq<String>, ports: Seq<u16>) -> bool {
    &&& jobs.len() == hosts.len() * ports.len()
    &&& forall|k: int| 0 <= k < jobs.len() ==> {
        &&& (#[trigger] jobs[k]).0@ == hosts[k / ports.len() as int]@
        &&& jobs[k].1 == ports[k % ports.len() as int]
    }
}

proof fn lemma_job_index(i: int, j: int, p: int)
    requires
        0 <= i,
        0 <= j < p,
    ensures
        (i * p + j) / p == i,
        (i * p + j) % p == j,
        i * p + j < (i + 1) * p,
{
    vstd::arithmetic::div_mod::lemma_fundamental_div_mod_converse(i * p + j, p, i, j);
    assert(i * p + j < (i + 1) * p) by (nonlinear_arith)
        requires
            j < p,
    ;
}

/// The jobs of a scan of `hosts` at `ports`; see `jobs_listed`.
pub fn scan_jobs(hosts: &Vec<String>, ports: &Vec<u16>) -> (jobs: Vec<(String, u16)>)
    requires
        hosts@.len() * ports@.len() <= usize::MAX,
    ensures
        jobs_listed(jobs@, hosts@, ports@),
{
    let p = ports.len();
    let mut jobs: Vec<(String, u16)> = Vec::new();
    let mut i: usize = 0;
    while i < hosts.len()
        invariant
            p == ports@.len(),
            i <= hosts@.len(),
            hosts@.len() * ports@.len() <= usize::MAX,
            jobs@.len() == i * p,
            forall|k: int| 0 <= k < jobs@.len() ==> {
                &&& (#[trigger] jobs@[k]).0@ == hosts@[k / p as int]@
                &&& jobs@[k].1 == ports@[k % p as int]
            },
        decreases hosts@.len() - i,
    {
        let mut j: usize = 0;
        while j < p
            invariant
                p == ports@.len(),
                i < hosts@.len(),
                j <= p,
                jobs@.len() == i * p + j,
                forall|k: int| 0 <= k < jobs@.len() ==> {
                    &&& (#[trigger] jobs@[k]).0@ == hosts@[k / p as int]@
                    &&& jobs@[k].1 == ports@[k % p as int]
                },
            decreases p - j,
        {
            proof {
                lemma_job_index(i as int, j as int, p as int);
            }
            let host = hosts[i].clone();
            assert(host@ == hosts@[i as int]@);
            jobs.push((host, ports[j]));
            j = j + 1;
        }
        assert(jobs@.len() == (i + 1) * p) by (nonlinear_arith)
            requires
                jobs@.len() == i * p + p,
        ;
        i = i + 1;
    }
    proof {
        assert(jobs@.len() == hosts@.len() * ports@.len());
    }
    jobs
}

// ── Ordering the results ─────────────────────────────────────────────────────

/// What the result list keeps of one probed port.
pub struct ScanEntry {
    pub host: String,
    pub port: u16,
    pub open: bool,
}

/// `x` is listed before `y`: open ports first, then by host, then by port.
pub open spec fn result_before(x: ScanEntry, y: ScanEntry) -> bool {
    ||| x.open && !y.open
    ||| x.open == y.open && text_before(x.host@, y.host@)
    ||| x.open == y.open && x.host@ == y.host@ && x.port < y.port
}

pub open spec fn result_same(x: ScanEntry, y: ScanEntry) -> bool {
    x.open == y.open && x.host@ == y.host@ && x.port == y.port
}

/// `perm` lists the results in the order of a stable sort: open ports
/// first, then by host, then by port, equal results as they came.
pub open spec fn results_in_order(entries: Seq<ScanEntry>, perm: Seq<usize>) -> bool {
    forall|i: int, j: int| 0 <= i < j < perm.len() ==> {
        let (x, y) = (entries[#[trigger] perm[i] as int], entries[#[trigger] perm[j] as int]);
        ||| result_before(x, y)
        ||| result_same(x, y) && perm[i] < perm[j]
    }
}

/// The positions of the results in the order in which they are listed once
/// the scan is done.
pub fn order_results(entries: &Vec<ScanEntry>) -> (perm: Vec<usize>)
    ensures
        is_permutation(perm@, entries@.len()),
        results_in_order(entries@, perm@),
{
    let mut keys: Vec<RankKey> = Vec::new();
    let mut k: usize = 0;
    while k < entries.len()
        invariant
            k <= entries@.len(),
            keys@.len() == k,
            forall|m: int| 0 <= m < k ==> {
                &&& (#[trigger] keys@[m]).first == (if entries@[m].open { 0u64 } else { 1u64 })
                &&& keys@[m].text@ == entries@[m].host@
                &&& keys@[m].last == entries@[m].port
            },
        decreases entries@.len() - k,
    {
        let e = &entries[k];
        keys.push(RankKey {
            first: if e.open { 0 } else { 1 },
            text: chars_of(e.host.as_str()),
            last: e.port as u64,
        });
        k = k + 1;
    }
    let perm = rank_order(&keys);
    proof {
        assert forall|i: int, j: int| 0 <= i < j < perm@.len() implies {
            let (x, y) = (entries@[#[trigger] perm@[i] as int], entries@[#[trigger] perm@[j] as int]);
            ||| result_before(x, y)
            ||| result_same(x, y) && perm@[i] < perm@[j]
        } by {
            assert(ranked(keys@, perm@));
            let (a, b) = (perm@[i] as int, perm@[j] as int);
            assert(keys@[a].first == (if entries@[a].open { 0u64 } else { 1u64 }));
            assert(keys@[b].first == (if entries@[b].open { 0u64 } else { 1u64 }));
        }
    }
    perm
}

/// Once the results are ordered, every open port is listed before every
/// closed one.
pub proof fn law_open_results_first(entries: Seq<ScanEntry>, perm: Seq<usize>, i: int, j: int)
    requires
        results_in_order(entries, perm),
        0 <= i < j < perm.len(),
        entries[perm[j] as int].open,
    ensures
        entries[perm[i] as int].open,
{
    let (x, y) = (entries[perm[i] as int], entries[perm[j] as int]);
    assert(result_before(x, y) || result_same(x, y));
}

} // verus!
