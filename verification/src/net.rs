//! Network interfaces: their kind from the name, the order they are shown in,
//! their addresses as `ip addr` reports them, and traffic counters.
use vstd::prelude::*;
use vstd::string::StringExecFns;
use crate::order::{is_stable_order, lemma_stable_order_unique, precedes};
use crate::text::{
    chars_of, contains, lines_of, lowercase, spec_lowercase, spec_utf8_lossy, starts_with,
    starts_with_chars, str_contains, str_starts_with, string_of, text_lines, trim, trim_chars,
    views, words_chars, words_of,
};

verus! {

// ------------------------------------------------------------------ kinds

/// What an interface is, judged by its name.
#[derive(Clone, Copy, Debug, PartialEq, Eq, Structural)]
pub enum IfaceKind {
    Ethernet,
    WiFi,
    Tunnel,
    Other,
    Virtual,
    Loopback,
}

/// The kind of an interface whose lowercased name is `n`.
pub open spec fn iface_kind_spec(n: Seq<char>) -> IfaceKind {
    if starts_with(n, "lo"@) {
        IfaceKind::Loopback
    } else if starts_with(n, "wl"@) || contains(n, "wifi"@) || contains(n, "wi-fi"@) {
        IfaceKind::WiFi
    } else if starts_with(n, "eth"@) || starts_with(n, "en"@) || starts_with(n, "em"@) {
        IfaceKind::Ethernet
    } else if contains(n, "docker"@) || contains(n, "br-"@) || contains(n, "veth"@) || contains(
        n,
        "virbr"@,
    ) {
        IfaceKind::Virtual
    } else if starts_with(n, "tun"@) || starts_with(n, "tap"@) {
        IfaceKind::Tunnel
    } else {
        IfaceKind::Other
    }
}

/// The kind of an interface whose name, already lowercased, is `n`.
pub fn iface_kind_lc(n: &str) -> (r: IfaceKind)
    ensures
        r == iface_kind_spec(n@),
{
    if str_starts_with(n, "lo") {
        IfaceKind::Loopback
    } else if str_starts_with(n, "wl") || str_contains(n, "wifi") || str_contains(n, "wi-fi") {
        IfaceKind::WiFi
    } else if str_starts_with(n, "eth") || str_starts_with(n, "en") || str_starts_with(n, "em") {
        IfaceKind::Ethernet
    } else if str_contains(n, "docker") || str_contains(n, "br-") || str_contains(n, "veth")
        || str_contains(n, "virbr") {
        IfaceKind::Virtual
    } else if str_starts_with(n, "tun") || str_starts_with(n, "tap") {
        IfaceKind::Tunnel
    } else {
        IfaceKind::Other
    }
}

/// The kind of the interface named `name`, judged on the name lowercased.
pub fn iface_kind(name: &str) -> (r: IfaceKind)
    ensures
        r == iface_kind_spec(spec_lowercase(name@)),
        vstd::utf8::is_ascii_chars(name@) ==> r == iface_kind_spec(crate::text::ascii_lower(name@)),
{
    let n = lowercase(name);
    iface_kind_lc(n.as_str())
}

/// The label shown for a kind.
pub open spec fn kind_label_spec(k: IfaceKind) -> Seq<char> {
    match k {
        IfaceKind::Ethernet => "Ethernet"@,
        IfaceKind::WiFi => "Wi-Fi"@,
        IfaceKind::Tunnel => "VPN/Tunnel"@,
        IfaceKind::Other => "Other"@,
        IfaceKind::Virtual => "Virtual"@,
        IfaceKind::Loopback => "Loopback"@,
    }
}

/// The label shown for a kind.
pub fn kind_label(k: IfaceKind) -> (r: &'static str)
    ensures
        r@ == kind_label_spec(k),
{
    match k {
        IfaceKind::Ethernet => "Ethernet",
        IfaceKind::WiFi => "Wi-Fi",
        IfaceKind::Tunnel => "VPN/Tunnel",
        IfaceKind::Other => "Other",
        IfaceKind::Virtual => "Virtual",
        IfaceKind::Loopback => "Loopback",
    }
}

/// Where interfaces of a kind are listed: Ethernet first, loopback last.
pub open spec fn kind_rank(k: IfaceKind) -> nat {
    match k {
        IfaceKind::Ethernet => 0,
        IfaceKind::WiFi => 1,
        IfaceKind::Tunnel => 2,
        IfaceKind::Other => 3,
        IfaceKind::Virtual => 4,
        IfaceKind::Loopback => 5,
    }
}

/// Where interfaces of a kind are listed.
pub fn rank_of(k: IfaceKind) -> (r: u8)
    ensures
        r == kind_rank(k),
{
    match k {
        IfaceKind::Ethernet => 0,
        IfaceKind::WiFi => 1,
        IfaceKind::Tunnel => 2,
        IfaceKind::Other => 3,
        IfaceKind::Virtual => 4,
        IfaceKind::Loopback => 5,
    }
}


/// Law: how a lowercased interface name decides its kind, rule by rule in order:
/// names starting "lo" are loopback; then names starting "wl" or mentioning "wifi"
/// or "wi-fi" are Wi-Fi; then names starting "eth", "en" or "em" are Ethernet; then
/// names mentioning "docker", "br-", "veth" or "virbr" are virtual; then names
/// starting "tun" or "tap" are tunnels; anything else is "other".
pub proof fn lemma_iface_kind_rules(n: Seq<char>)
    ensures
        ({
            let lo = starts_with(n, "lo"@);
            let wifi = starts_with(n, "wl"@) || contains(n, "wifi"@) || contains(n, "wi-fi"@);
            let eth = starts_with(n, "eth"@) || starts_with(n, "en"@) || starts_with(n, "em"@);
            let virt = contains(n, "docker"@) || contains(n, "br-"@) || contains(n, "veth"@)
                || contains(n, "virbr"@);
            let tun = starts_with(n, "tun"@) || starts_with(n, "tap"@);
            &&& lo ==> iface_kind_spec(n) == IfaceKind::Loopback
            &&& !lo && wifi ==> iface_kind_spec(n) == IfaceKind::WiFi
            &&& !lo && !wifi && eth ==> iface_kind_spec(n) == IfaceKind::Ethernet
            &&& !lo && !wifi && !eth && virt ==> iface_kind_spec(n) == IfaceKind::Virtual
            &&& !lo && !wifi && !eth && !virt && tun ==> iface_kind_spec(n) == IfaceKind::Tunnel
            &&& !lo && !wifi && !eth && !virt && !tun ==> iface_kind_spec(n) == IfaceKind::Other
        }),
{
}

/// Law: interfaces are listed Ethernet, Wi-Fi, VPN/tunnel, other, virtual, loopback;
/// each kind has its own label.
pub proof fn lemma_kind_ranks_and_labels()
    ensures
        kind_rank(IfaceKind::Ethernet) < kind_rank(IfaceKind::WiFi),
        kind_rank(IfaceKind::WiFi) < kind_rank(IfaceKind::Tunnel),
        kind_rank(IfaceKind::Tunnel) < kind_rank(IfaceKind::Other),
        kind_rank(IfaceKind::Other) < kind_rank(IfaceKind::Virtual),
        kind_rank(IfaceKind::Virtual) < kind_rank(IfaceKind::Loopback),
        kind_label_spec(IfaceKind::Ethernet) == "Ethernet"@,
        kind_label_spec(IfaceKind::WiFi) == "Wi-Fi"@,
        kind_label_spec(IfaceKind::Tunnel) == "VPN/Tunnel"@,
        kind_label_spec(IfaceKind::Other) == "Other"@,
        kind_label_spec(IfaceKind::Virtual) == "Virtual"@,
        kind_label_spec(IfaceKind::Loopback) == "Loopback"@,
{
}

// ------------------------------------------------------------------ display order

/// The keys that order interfaces by the rank of their kind.
pub open spec fn rank_keys(kinds: Seq<IfaceKind>) -> Seq<int> {
    kinds.map_values(|k: IfaceKind| kind_rank(k) as int)
}

/// `order` lists every interface once, by rank, keeping the given order among
/// interfaces of one rank (a stable sort by rank).
pub open spec fn is_display_order(kinds: Seq<IfaceKind>, order: Seq<usize>) -> bool {
    is_stable_order(rank_keys(kinds), order)
}

/// Number of positions below `i` whose kind ranks below `r`.
pub open spec fn count_below(kinds: Seq<IfaceKind>, r: nat, i: nat) -> nat
    decreases i,
{
    if i == 0 {
        0
    } else {
        count_below(kinds, r, (i - 1) as nat) + if kind_rank(kinds[i - 1]) < r {
            1nat
        } else {
            0nat
        }
    }
}

/// Number of positions below `i` whose kind has rank `r`.
pub open spec fn count_at(kinds: Seq<IfaceKind>, r: nat, i: nat) -> nat
    decreases i,
{
    if i == 0 {
        0
    } else {
        count_at(kinds, r, (i - 1) as nat) + if kind_rank(kinds[i - 1]) == r {
            1nat
        } else {
            0nat
        }
    }
}

/// Counting below `r + 1` counts below `r` and at `r`.
proof fn lemma_count_step(kinds: Seq<IfaceKind>, r: nat, i: nat)
    ensures
        count_below(kinds, r + 1, i) == count_below(kinds, r, i) + count_at(kinds, r, i),
    decreases i,
{
    if i > 0 {
        lemma_count_step(kinds, r, (i - 1) as nat);
    }
}

/// Nothing ranks below 0.
proof fn lemma_count_zero(kinds: Seq<IfaceKind>, i: nat)
    ensures
        count_below(kinds, 0, i) == 0,
    decreases i,
{
    if i > 0 {
        lemma_count_zero(kinds, (i - 1) as nat);
    }
}

/// Every rank is below 6, so counting below 6 counts everything.
proof fn lemma_count_all(kinds: Seq<IfaceKind>, i: nat)
    ensures
        count_below(kinds, 6, i) == i,
    decreases i,
{
    if i > 0 {
        lemma_count_all(kinds, (i - 1) as nat);
    }
}

/// The positions of `kinds` in display order: by rank, Ethernet first and
/// loopback last, keeping the given order within a rank.
pub fn display_order(kinds: &Vec<IfaceKind>) -> (order: Vec<usize>)
    ensures
        is_display_order(kinds@, order@),
{
    let n = kinds.len();
    let mut out: Vec<usize> = Vec::new();
    let mut r: u8 = 0;
    proof {
        lemma_count_zero(kinds@, n as nat);
    }
    while r < 6
        invariant
            n == kinds.len(),
            r <= 6,
            out.len() == count_below(kinds@, r as nat, n as nat),
            forall|k: int| 0 <= k < out.len() ==> #[trigger] out@[k] < n && kind_rank(kinds@[out@[k] as int]) < r,
            forall|k: int, m: int|
                0 <= k < m < out.len() ==> precedes(rank_keys(kinds@), #[trigger] out@[k] as int, #[trigger] out@[m] as int),
            forall|j: int| 0 <= j < n && kind_rank(#[trigger] kinds@[j]) < r ==> out@.contains(j as usize),
        decreases 6 - r,
    {
        let ghost base = out.len();
        let mut i: usize = 0;
        while i < n
            invariant
                n == kinds.len(),
                r < 6,
                i <= n,
                out.len() == count_below(kinds@, r as nat, n as nat) + count_at(kinds@, r as nat, i as nat),
                forall|k: int| 0 <= k < out.len() ==> #[trigger] out@[k] < n && (kind_rank(kinds@[out@[k] as int]) < r
                    || (kind_rank(kinds@[out@[k] as int]) == r && out@[k] < i)),
                forall|k: int, m: int|
                    0 <= k < m < out.len() ==> precedes(rank_keys(kinds@), #[trigger] out@[k] as int, #[trigger] out@[m] as int),
                forall|j: int| 0 <= j < n && kind_rank(#[trigger] kinds@[j]) < r ==> out@.contains(j as usize),
                forall|j: int| 0 <= j < i && kind_rank(#[trigger] kinds@[j]) == r ==> out@.contains(j as usize),
            decreases n - i,
        {
            if rank_of(kinds[i]) == r {
                let ghost before = out@;
                out.push(i);
                proof {
                    assert forall|j: int| 0 <= j < n && kind_rank(#[trigger] kinds@[j]) < r implies out@.contains(j as usize) by {
                        let k = choose|k: int| 0 <= k < before.len() && before[k] == j as usize;
                        assert(out@[k] == j as usize);
                    }
                    assert forall|j: int| 0 <= j < i + 1 && kind_rank(#[trigger] kinds@[j]) == r implies out@.contains(j as usize) by {
                        if j < i {
                            let k = choose|k: int| 0 <= k < before.len() && before[k] == j as usize;
                            assert(out@[k] == j as usize);
                        } else {
                            assert(out@[before.len() as int] == i);
                        }
                    }
                }
            }
            i = i + 1;
        }
        proof {
            lemma_count_step(kinds@, r as nat, n as nat);
        }
        r = r + 1;
    }
    proof {
        lemma_count_all(kinds@, n as nat);
        assert forall|i: usize| i < kinds.len() implies #[trigger] out@.contains(i) by {
            assert(kind_rank(kinds@[i as int]) < 6);
        }
    }
    out
}


/// Law: the display order is determined by the kinds alone: any two orders that
/// list every interface once, by rank and stably within a rank, are the same.
pub proof fn lemma_display_order_unique(kinds: Seq<IfaceKind>, o1: Seq<usize>, o2: Seq<usize>)
    requires
        is_display_order(kinds, o1),
        is_display_order(kinds, o2),
    ensures
        o1 == o2,
{
    lemma_stable_order_unique(rank_keys(kinds), o1, o2);
}

// ------------------------------------------------------------------ addresses

/// One line of `ip addr show` (or `ifconfig`): after trimming, an `inet ` line
/// adds its second word to the IPv4 list and an `inet6 ` line to the IPv6 list.
pub open spec fn addr_step(acc: (Seq<Seq<char>>, Seq<Seq<char>>), line: Seq<char>) -> (
    Seq<Seq<char>>,
    Seq<Seq<char>>,
) {
    let t = trim(line);
    let w = words_of(t);
    let v4 = if starts_with(t, "inet "@) && w.len() > 1 {
        acc.0.push(w[1])
    } else {
        acc.0
    };
    let v6 = if starts_with(t, "inet6 "@) && w.len() > 1 {
        acc.1.push(w[1])
    } else {
        acc.1
    };
    (v4, v6)
}

/// The address lists after the first `n` lines.
pub open spec fn addr_run(lines: Seq<Seq<char>>, n: nat) -> (Seq<Seq<char>>, Seq<Seq<char>>)
    decreases n,
{
    if n == 0 {
        (Seq::empty(), Seq::empty())
    } else {
        addr_step(addr_run(lines, (n - 1) as nat), lines[n - 1])
    }
}

/// The IPv4 and IPv6 addresses (with prefix length) that the output of
/// `ip addr show <iface>` or `ifconfig <iface>` lists.
pub fn parse_iface_addrs(out: &[u8]) -> (r: (Vec<String>, Vec<String>))
    ensures
        crate::text::string_views(r.0@) == addr_run(
            lines_of(spec_utf8_lossy(out@)),
            lines_of(spec_utf8_lossy(out@)).len(),
        ).0,
        crate::text::string_views(r.1@) == addr_run(
            lines_of(spec_utf8_lossy(out@)),
            lines_of(spec_utf8_lossy(out@)).len(),
        ).1,
{
    let lines = text_lines(out);
    assert(views(lines@).len() == lines@.len());
    let mut v4: Vec<String> = Vec::new();
    let mut v6: Vec<String> = Vec::new();
    assert(crate::text::string_views(v4@) =~= Seq::empty());
    assert(crate::text::string_views(v6@) =~= Seq::empty());
    let mut i: usize = 0;
    while i < lines.len()
        invariant
            i <= lines.len(),
            views(lines@).len() == lines@.len(),
            (crate::text::string_views(v4@), crate::text::string_views(v6@)) == addr_run(
                views(lines@),
                i as nat,
            ),
        decreases lines.len() - i,
    {
        assert(views(lines@)[i as int] == lines@[i as int]@);
        let t = trim_chars(&lines[i]);
        let w = words_chars(&t);
        assert(views(w@).len() == w@.len());
        if starts_with_chars(&t, &chars_of("inet ")) && w.len() > 1 {
            assert(views(w@)[1] == w@[1]@);
            let ghost before = v4@;
            v4.push(string_of(&w[1]));
            assert(crate::text::string_views(v4@) =~= crate::text::string_views(before).push(w@[1]@));
        }
        if starts_with_chars(&t, &chars_of("inet6 ")) && w.len() > 1 {
            assert(views(w@)[1] == w@[1]@);
            let ghost before = v6@;
            v6.push(string_of(&w[1]));
            assert(crate::text::string_views(v6@) =~= crate::text::string_views(before).push(w@[1]@));
        }
        i = i + 1;
    }
    (v4, v6)
}


/// The line, trimmed, starts with `prefix` and has a second word.
pub open spec fn is_addr_line(line: Seq<char>, prefix: Seq<char>) -> bool {
    starts_with(trim(line), prefix) && words_of(trim(line)).len() > 1
}

/// The second word of the trimmed line: the address it lists.
pub open spec fn listed_addr(line: Seq<char>) -> Seq<char> {
    words_of(trim(line))[1]
}

/// How many of the first `n` lines list an address under `prefix`.
pub open spec fn count_addr_lines(lines: Seq<Seq<char>>, n: nat, prefix: Seq<char>) -> nat
    decreases n,
{
    if n == 0 {
        0
    } else {
        count_addr_lines(lines, (n - 1) as nat, prefix) + if is_addr_line(lines[n - 1], prefix) {
            1nat
        } else {
            0nat
        }
    }
}

/// Counting over more lines counts at least as many, and one more past a listing line.
proof fn lemma_count_addr_mono(lines: Seq<Seq<char>>, k: nat, m: nat, prefix: Seq<char>)
    requires
        k <= m,
    ensures
        count_addr_lines(lines, k, prefix) <= count_addr_lines(lines, m, prefix),
        k < m && is_addr_line(lines[k as int], prefix) ==> count_addr_lines(lines, k, prefix)
            < count_addr_lines(lines, m, prefix),
    decreases m - k,
{
    if k < m {
        lemma_count_addr_mono(lines, k, (m - 1) as nat, prefix);
        if k + 1 <= m {
            lemma_count_addr_mono(lines, (k + 1) as nat, m, prefix);
        }
    }
}

/// Law: every line that (trimmed) starts with `inet ` and has a second word adds
/// that word to the IPv4 list, and every such `inet6 ` line to the IPv6 list, in
/// the order of the lines and nothing else: each list has exactly as many entries
/// as there are such lines, and the entry for a line stands after those of the
/// lines before it.
pub proof fn lemma_addr_lists(lines: Seq<Seq<char>>, n: nat)
    requires
        n <= lines.len(),
    ensures
        addr_run(lines, n).0.len() == count_addr_lines(lines, n, "inet "@),
        addr_run(lines, n).1.len() == count_addr_lines(lines, n, "inet6 "@),
        forall|k: int|
            0 <= k < n && is_addr_line(#[trigger] lines[k], "inet "@) ==> addr_run(lines, n).0[count_addr_lines(
                lines,
                k as nat,
                "inet "@,
            ) as int] == listed_addr(lines[k]),
        forall|k: int|
            0 <= k < n && is_addr_line(#[trigger] lines[k], "inet6 "@) ==> addr_run(lines, n).1[count_addr_lines(
                lines,
                k as nat,
                "inet6 "@,
            ) as int] == listed_addr(lines[k]),
    decreases n,
{
    if n > 0 {
        let m = (n - 1) as nat;
        lemma_addr_lists(lines, m);
        assert forall|k: int|
            0 <= k < n && is_addr_line(#[trigger] lines[k], "inet "@) implies addr_run(lines, n).0[count_addr_lines(
                lines,
                k as nat,
                "inet "@,
            ) as int] == listed_addr(lines[k]) by {
            if k < m {
                lemma_count_addr_mono(lines, k as nat, m, "inet "@);
            }
        }
        assert forall|k: int|
            0 <= k < n && is_addr_line(#[trigger] lines[k], "inet6 "@) implies addr_run(lines, n).1[count_addr_lines(
                lines,
                k as nat,
                "inet6 "@,
            ) as int] == listed_addr(lines[k]) by {
            if k < m {
                lemma_count_addr_mono(lines, k as nat, m, "inet6 "@);
            }
        }
    }
}

// ------------------------------------------------------------------ counters and display

/// Bytes moved since the previous reading: `now - prev`, or 0 when the counter went back.
pub fn counter_delta(now: u64, prev: u64) -> (r: u64)
    ensures
        r == if now >= prev {
            (now - prev) as u64
        } else {
            0
        },
{
    now.saturating_sub(prev)
}

/// The interface has moved traffic in either direction.
pub fn is_active(rx: u64, tx: u64) -> (r: bool)
    ensures
        r == (rx > 0 || tx > 0),
{
    rx > 0 || tx > 0
}

/// The hardware address is worth showing: not empty and not all zeros.
pub fn mac_is_shown(mac: &str) -> (r: bool)
    ensures
        r == (mac@.len() > 0 && mac@ != "00:00:00:00:00:00"@),
{
    let cs = chars_of(mac);
    if cs.len() == 0 {
        return false;
    }
    let zero = chars_of("00:00:00:00:00:00");
    let same = crate::text::starts_with_chars(&cs, &zero) && cs.len() == zero.len();
    proof {
        if cs@.len() == zero@.len() {
            assert(cs@.subrange(0, zero@.len() as int) =~= cs@);
        }
        assert(same <==> cs@ == zero@);
    }
    !same
}

/// `list` joined with `sep` between neighbours.
pub open spec fn joined(list: Seq<Seq<char>>, sep: Seq<char>) -> Seq<char>
    decreases list.len(),
{
    if list.len() == 0 {
        Seq::empty()
    } else if list.len() == 1 {
        list[0]
    } else {
        joined(list.drop_last(), sep) + sep + list.last()
    }
}

/// The IPv4 line of an interface: its addresses joined with `", "`, or a hint when
/// it has none.
pub fn ipv4_summary(v4: &Vec<String>) -> (r: String)
    ensures
        r@ == if v4.len() == 0 {
            "None (check ip addr)"@
        } else {
            joined(crate::text::string_views(v4@), ", "@)
        },
{
    if v4.len() == 0 {
        return String::from_str("None (check ip addr)");
    }
    let ghost sv = crate::text::string_views(v4@);
    let mut r = v4[0].clone();
    assert(sv.take(1) =~= seq![sv[0]]);
    let mut i: usize = 1;
    while i < v4.len()
        invariant
            1 <= i <= v4.len(),
            sv == crate::text::string_views(v4@),
            r@ == joined(sv.take(i as int), ", "@),
        decreases v4.len() - i,
    {
        r.append(", ");
        r.append(v4[i].as_str());
        assert(sv.take(i + 1).drop_last() =~= sv.take(i as int));
        i = i + 1;
    }
    assert(sv.take(v4.len() as int) =~= sv);
    r
}

} // verus!
