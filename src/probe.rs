//! The collection engine: one composite command gathers every metric family
//! in a single round trip, a second one runs the reachability probes, and the
//! outputs are read family by family, each on its own.

use crate::models::{
    CpuInfo, DiskInfo, MemoryInfo, MonitoringData, NetworkInfo, PingTest, PortInfo, SystemInfo,
};
use crate::parse::{
    cpu_usage_spec, df_rows, disk_matches, disk_row_ok, free_spec, load_average_spec, meminfo_spec,
    netdev_lines, netstat_rows, network_matches, ping_latency_spec, port_matches,
    MonitoringService,
};
use crate::text::{
    chars_of, decimal_milli, parse_decimal_milli, parse_uint, seqs, split_by, split_chars,
    split_words, string_of, trim, trim_chars, uint_value, words,
};
use vstd::prelude::*;

verus! {

/// Printed between two probes of a composite command (ASCII record separator).
pub const SECTION_SEPARATOR: char = '\x1e';

/// How many sections the metrics command prints.
pub const PROBE_SECTIONS: usize = 14;

/// A collection fails once this many metric families could not be read.
pub const FAILURE_THRESHOLD: usize = 3;

/// The metrics command: its sections, in order, are `/proc/stat`'s first line,
/// `/proc/loadavg`, `nproc`, the CPU model, `/proc/meminfo`, `free -b`, `df -h`,
/// `/proc/net/dev`, `hostname`, `uname -s`, `uname -r`, `uname -m`,
/// `/proc/uptime` and `netstat -tuln`.
pub const METRICS_COMMAND: &'static str = "head -n 1 /proc/stat; printf '\\036'; cat /proc/loadavg; printf '\\036'; nproc; printf '\\036'; grep -m 1 'model name' /proc/cpuinfo | cut -d: -f2; printf '\\036'; cat /proc/meminfo; printf '\\036'; free -b; printf '\\036'; df -h; printf '\\036'; cat /proc/net/dev; printf '\\036'; hostname; printf '\\036'; uname -s; printf '\\036'; uname -r; printf '\\036'; uname -m; printf '\\036'; cat /proc/uptime; printf '\\036'; netstat -tuln";

/// The reachability command: one `ping` per target of `ping_target`, in order.
pub const PING_COMMAND: &'static str = "ping -c 1 -W 5 8.8.8.8 2>&1; printf '\\036'; ping -c 1 -W 5 1.1.1.1 2>&1; printf '\\036'; ping -c 1 -W 5 google.com 2>&1; printf '\\036'; ping -c 1 -W 5 github.com 2>&1";

/// How many targets the reachability command probes.
pub const PING_TARGETS: usize = 4;

/// The metric families, each read and degraded on its own.
#[derive(Debug, Clone, Copy, PartialEq, Eq, Structural)]
pub enum MetricFamily {
    Cpu,
    Memory,
    Disk,
    Network,
    System,
    Ports,
    Ping,
}

impl MetricFamily {
    /// The label that messages about the family carry.
    pub fn label(&self) -> (r: &'static str)
        ensures
            r@ == family_label(*self),
    {
        match self {
            MetricFamily::Cpu => "CPU",
            MetricFamily::Memory => "Memory",
            MetricFamily::Disk => "Disks",
            MetricFamily::Network => "Network",
            MetricFamily::System => "System",
            MetricFamily::Ports => "Ports",
            MetricFamily::Ping => "Ping",
        }
    }
}

/// The label of a family.
pub open spec fn family_label(f: MetricFamily) -> Seq<char> {
    match f {
        MetricFamily::Cpu => "CPU"@,
        MetricFamily::Memory => "Memory"@,
        MetricFamily::Disk => "Disks"@,
        MetricFamily::Network => "Network"@,
        MetricFamily::System => "System"@,
        MetricFamily::Ports => "Ports"@,
        MetricFamily::Ping => "Ping"@,
    }
}

/// The reachability targets, in the order the reachability command probes them.
pub open spec fn ping_targets() -> Seq<Seq<char>> {
    seq!["8.8.8.8"@, "1.1.1.1"@, "google.com"@, "github.com"@]
}

/// The `i`-th reachability target.
pub fn ping_target(i: usize) -> (r: &'static str)
    requires
        i < PING_TARGETS,
    ensures
        r@ == ping_targets()[i as int],
{
    if i == 0 {
        "8.8.8.8"
    } else if i == 1 {
        "1.1.1.1"
    } else if i == 2 {
        "google.com"
    } else {
        "github.com"
    }
}

/// The sections of a composite command's output.
pub open spec fn sections(output: Seq<char>) -> Seq<Seq<char>> {
    split_by(output, SECTION_SEPARATOR)
}

/// Section `i`, if the output has it.
pub open spec fn section(secs: Seq<Seq<char>>, i: int) -> Option<Seq<char>> {
    if 0 <= i < secs.len() {
        Some(secs[i])
    } else {
        None
    }
}

fn section_text(secs: &Vec<Vec<char>>, i: usize) -> (r: Option<String>)
    ensures
        r matches Some(s) ==> section(seqs(secs@), i as int) == Some(s@),
        r is None ==> section(seqs(secs@), i as int) is None,
{
    if i < secs.len() {
        Some(string_of(&secs[i]))
    } else {
        None
    }
}

/// The CPU family, when the `/proc/stat` section reads.
pub open spec fn cpu_spec_ok(secs: Seq<Seq<char>>) -> bool {
    section(secs, 0) is Some && cpu_usage_spec(section(secs, 0)->0) is Some
}

/// The load averages that the output gives; zeros where they do not read.
pub open spec fn load_of(secs: Seq<Seq<char>>) -> Seq<nat> {
    match section(secs, 1) {
        Some(t) => match load_average_spec(t) {
            Some(l) => l,
            None => seq![0nat, 0nat, 0nat],
        },
        None => seq![0nat, 0nat, 0nat],
    }
}

/// The core count that the output gives; 1 where it does not read.
pub open spec fn cores_of(secs: Seq<Seq<char>>) -> nat {
    match section(secs, 2) {
        Some(t) => match uint_value(trim(t), u32::MAX as nat) {
            Some(n) => n,
            None => 1,
        },
        None => 1,
    }
}

/// A text section trimmed, or nothing where it is missing.
pub open spec fn trimmed_section(secs: Seq<Seq<char>>, i: int) -> Seq<char> {
    match section(secs, i) {
        Some(t) => trim(t),
        None => Seq::empty(),
    }
}

/// The CPU figures that the output gives, or zeros where the family degraded.
pub open spec fn cpu_matches(c: CpuInfo, secs: Seq<Seq<char>>) -> bool {
    if cpu_spec_ok(secs) {
        &&& c.usage_milli_percent == cpu_usage_spec(section(secs, 0)->0)->0 as u64
        &&& c.load_average_milli[0] == load_of(secs)[0]
        &&& c.load_average_milli[1] == load_of(secs)[1]
        &&& c.load_average_milli[2] == load_of(secs)[2]
        &&& c.cores == cores_of(secs)
        &&& c.model@ == trimmed_section(secs, 3)
    } else {
        &&& c.usage_milli_percent == 0
        &&& c.load_average_milli[0] == 0
        &&& c.load_average_milli[1] == 0
        &&& c.load_average_milli[2] == 0
        &&& c.cores == 0
        &&& c.model@.len() == 0
    }
}

pub open spec fn zero_memory() -> MemoryInfo {
    MemoryInfo {
        total: 0,
        used: 0,
        free: 0,
        available: 0,
        swap_total: 0,
        swap_used: 0,
        swap_free: 0,
    }
}

/// Whether `/proc/meminfo` gives a memory total.
pub open spec fn meminfo_ok(secs: Seq<Seq<char>>) -> bool {
    section(secs, 4) is Some && meminfo_spec(section(secs, 4)->0)->0.total > 0
}

/// Whether `free -b` reads.
pub open spec fn free_ok(secs: Seq<Seq<char>>) -> bool {
    section(secs, 5) is Some && free_spec(section(secs, 5)->0) is Some
}

/// The memory family reads from `/proc/meminfo` when it gives a total or,
/// failing that, from `free -b`.
pub open spec fn memory_spec_ok(secs: Seq<Seq<char>>) -> bool {
    meminfo_ok(secs) || free_ok(secs)
}

/// The memory figures that the output gives, or zeros.
pub open spec fn memory_of(secs: Seq<Seq<char>>) -> MemoryInfo {
    if meminfo_ok(secs) {
        meminfo_spec(section(secs, 4)->0)->0
    } else if free_ok(secs) {
        free_spec(section(secs, 5)->0)->0
    } else {
        zero_memory()
    }
}

pub open spec fn disk_spec_ok(secs: Seq<Seq<char>>) -> bool {
    section(secs, 6) is Some && forall|i: int|
        0 <= i < df_rows(section(secs, 6)->0).len() ==> disk_row_ok(
            #[trigger] df_rows(section(secs, 6)->0)[i],
        )
}

/// The disks that the output gives, or none.
pub open spec fn disks_match(d: Seq<DiskInfo>, secs: Seq<Seq<char>>) -> bool {
    if disk_spec_ok(secs) {
        let rows = df_rows(section(secs, 6)->0);
        d.len() == rows.len() && forall|i: int| 0 <= i < d.len() ==> disk_matches(#[trigger] d[i], rows[i])
    } else {
        d.len() == 0
    }
}

/// The interfaces that the output gives, or none.
pub open spec fn network_matches_all(n: Seq<NetworkInfo>, secs: Seq<Seq<char>>) -> bool {
    match section(secs, 7) {
        Some(t) => n.len() == netdev_lines(t).len() && forall|i: int|
            0 <= i < n.len() ==> network_matches(#[trigger] n[i], netdev_lines(t)[i]),
        None => n.len() == 0,
    }
}

/// The listening ports that the output gives, or none.
pub open spec fn ports_match(p: Seq<PortInfo>, secs: Seq<Seq<char>>) -> bool {
    match section(secs, 13) {
        Some(t) => p.len() == netstat_rows(t).len() && forall|i: int|
            0 <= i < p.len() ==> port_matches(#[trigger] p[i], netstat_rows(t)[i]),
        None => p.len() == 0,
    }
}

pub open spec fn system_spec_ok(secs: Seq<Seq<char>>) -> bool {
    secs.len() > 12
}

/// Whole seconds of uptime: the first word of `/proc/uptime`, or 0.
pub open spec fn uptime_of(t: Seq<char>) -> nat {
    if words(t).len() > 0 && decimal_milli(words(t)[0]) is Some {
        decimal_milli(words(t)[0])->0 / 1000
    } else {
        0
    }
}

/// The host facts that the output gives, or empty ones.
pub open spec fn system_matches(s: SystemInfo, secs: Seq<Seq<char>>) -> bool {
    if system_spec_ok(secs) {
        &&& s.hostname@ == trim(secs[8])
        &&& s.os@ == trim(secs[9])
        &&& s.kernel@ == trim(secs[10])
        &&& s.architecture@ == trim(secs[11])
        &&& s.uptime == uptime_of(secs[12])
    } else {
        &&& s.hostname@.len() == 0
        &&& s.os@.len() == 0
        &&& s.kernel@.len() == 0
        &&& s.architecture@.len() == 0
        &&& s.uptime == 0
    }
}

/// The reachability results that a reachability output gives: one per
/// target, a target without a section failing.
pub open spec fn pings_match(p: Seq<PingTest>, out: Seq<char>) -> bool {
    &&& p.len() == PING_TARGETS
    &&& forall|i: int|
        0 <= i < p.len() ==> {
            let r = #[trigger] p[i];
            &&& r.target@ == ping_targets()[i]
            &&& match section(sections(out), i) {
                Some(t) => r.success == (ping_latency_spec(t) is Some) && (r.success ==> r.latency_micros
                    == Some(ping_latency_spec(t)->0 as u64)),
                None => !r.success && r.latency_micros is None && r.error is Some,
            }
        }
}

/// The families that degrade, in the order of `MetricFamily`.
pub open spec fn degraded_spec(secs: Seq<Seq<char>>, ping: Option<Seq<char>>) -> Seq<MetricFamily> {
    (if cpu_spec_ok(secs) { seq![] } else { seq![MetricFamily::Cpu] })
    + (if memory_spec_ok(secs) { seq![] } else { seq![MetricFamily::Memory] })
    + (if disk_spec_ok(secs) { seq![] } else { seq![MetricFamily::Disk] })
    + (if section(secs, 7) is Some { seq![] } else { seq![MetricFamily::Network] })
    + (if system_spec_ok(secs) { seq![] } else { seq![MetricFamily::System] })
    + (if section(secs, 13) is Some { seq![] } else { seq![MetricFamily::Ports] })
    + (if ping is Some { seq![] } else { seq![MetricFamily::Ping] })
}

/// A snapshot together with the families that degraded in it.
#[derive(Debug, Clone)]
pub struct Collected {
    pub data: MonitoringData,
    pub degraded: Vec<MetricFamily>,
}

/// A collection that failed: too many families degraded.
#[derive(Debug, Clone)]
pub struct CollectError {
    pub degraded: Vec<MetricFamily>,
}

fn cpu_from_sections(secs: &Vec<Vec<char>>) -> (r: (CpuInfo, bool))
    ensures
        r.1 == cpu_spec_ok(seqs(secs@)),
        cpu_matches(r.0, seqs(secs@)),
{
    let ghost s = seqs(secs@);
    let usage = match section_text(secs, 0) {
        Some(t) => MonitoringService::parse_cpu_usage(t.as_str()),
        None => Err(crate::models::ParseError),
    };
    match usage {
        Ok(u) => {
            let load: [u64; 3] = match section_text(secs, 1) {
                Some(t) => match MonitoringService::parse_load_average(t.as_str()) {
                    Ok(l) => l,
                    Err(_) => [0, 0, 0],
                },
                None => [0, 0, 0],
            };
            let cores: u32 = match section_text(secs, 2) {
                Some(t) => match parse_uint(&trim_chars(&chars_of(t.as_str())), u32::MAX as u64) {
                    Some(n) => n as u32,
                    None => 1,
                },
                None => 1,
            };
            let model = match section_text(secs, 3) {
                Some(t) => string_of(&trim_chars(&chars_of(t.as_str()))),
                None => String::new(),
            };
            assert(load[0] == load_of(s)[0] && load[1] == load_of(s)[1] && load[2] == load_of(s)[2]);
            (CpuInfo { usage_milli_percent: u, load_average_milli: load, cores, model }, true)
        },
        Err(_) => (
            CpuInfo {
                usage_milli_percent: 0,
                load_average_milli: [0, 0, 0],
                cores: 0,
                model: String::new(),
            },
            false,
        ),
    }
}


fn memory_from_sections(secs: &Vec<Vec<char>>) -> (r: (MemoryInfo, bool))
    ensures
        r.1 == memory_spec_ok(seqs(secs@)),
        r.0 == memory_of(seqs(secs@)),
{
    if let Some(t) = section_text(secs, 4) {
        if let Ok(m) = MonitoringService::parse_meminfo(t.as_str()) {
            if m.total > 0 {
                return (m, true);
            }
        }
    }
    if let Some(t) = section_text(secs, 5) {
        if let Ok(m) = MonitoringService::parse_free_output(t.as_str()) {
            return (m, true);
        }
    }
    (
        MemoryInfo {
            total: 0,
            used: 0,
            free: 0,
            available: 0,
            swap_total: 0,
            swap_used: 0,
            swap_free: 0,
        },
        false,
    )
}

fn disks_from_sections(secs: &Vec<Vec<char>>) -> (r: (Vec<DiskInfo>, bool))
    ensures
        r.1 == disk_spec_ok(seqs(secs@)),
        disks_match(r.0@, seqs(secs@)),
{
    match section_text(secs, 6) {
        Some(t) => match MonitoringService::parse_df_output(t.as_str()) {
            Ok(d) => (d, true),
            Err(_) => (Vec::new(), false),
        },
        None => (Vec::new(), false),
    }
}

fn network_from_sections(secs: &Vec<Vec<char>>) -> (r: (Vec<NetworkInfo>, bool))
    ensures
        r.1 == (section(seqs(secs@), 7) is Some),
        network_matches_all(r.0@, seqs(secs@)),
{
    match section_text(secs, 7) {
        Some(t) => match MonitoringService::parse_net_dev(t.as_str()) {
            Ok(n) => (n, true),
            Err(_) => (Vec::new(), true),
        },
        None => (Vec::new(), false),
    }
}

fn ports_from_sections(secs: &Vec<Vec<char>>) -> (r: (Vec<PortInfo>, bool))
    ensures
        r.1 == (section(seqs(secs@), 13) is Some),
        ports_match(r.0@, seqs(secs@)),
{
    match section_text(secs, 13) {
        Some(t) => match MonitoringService::parse_netstat(t.as_str()) {
            Ok(p) => (p, true),
            Err(_) => (Vec::new(), true),
        },
        None => (Vec::new(), false),
    }
}

fn uptime_from(t: &Vec<char>) -> (r: u64)
    ensures
        r == uptime_of(t@),
{
    let w = split_words(t);
    if w.len() == 0 {
        return 0;
    }
    assert(seqs(w@)[0] == w[0]@);
    match parse_decimal_milli(&w[0]) {
        Some(v) => v / 1000,
        None => 0,
    }
}

fn system_from_sections(secs: &Vec<Vec<char>>) -> (r: (SystemInfo, bool))
    ensures
        r.1 == system_spec_ok(seqs(secs@)),
        system_matches(r.0, seqs(secs@)),
{
    let ghost s = seqs(secs@);
    if secs.len() <= 12 {
        return (
            SystemInfo {
                hostname: String::new(),
                os: String::new(),
                kernel: String::new(),
                uptime: 0,
                architecture: String::new(),
            },
            false,
        );
    }
    assert(s[8] == secs[8]@ && s[9] == secs[9]@ && s[10] == secs[10]@ && s[11] == secs[11]@);
    assert(s[12] == secs[12]@);
    (
        SystemInfo {
            hostname: string_of(&trim_chars(&secs[8])),
            os: string_of(&trim_chars(&secs[9])),
            kernel: string_of(&trim_chars(&secs[10])),
            uptime: uptime_from(&secs[12]),
            architecture: string_of(&trim_chars(&secs[11])),
        },
        true,
    )
}

/// The reachability results that a reachability output gives (see `pings_match`).
pub fn pings_from_output(output: &str) -> (r: Vec<PingTest>)
    ensures
        pings_match(r@, output@),
{
    let secs = split_chars(&chars_of(output), SECTION_SEPARATOR);
    let mut r: Vec<PingTest> = Vec::new();
    let mut i: usize = 0;
    while i < PING_TARGETS
        invariant
            i <= PING_TARGETS,
            seqs(secs@) == sections(output@),
            r@.len() == i,
            forall|j: int|
                0 <= j < i ==> {
                    let p = #[trigger] r@[j];
                    &&& p.target@ == ping_targets()[j]
                    &&& match section(sections(output@), j) {
                        Some(t) => p.success == (ping_latency_spec(t) is Some) && (p.success
                            ==> p.latency_micros == Some(ping_latency_spec(t)->0 as u64)),
                        None => !p.success && p.latency_micros is None && p.error is Some,
                    }
                },
        decreases PING_TARGETS - i,
    {
        let target = ping_target(i);
        match section_text(&secs, i) {
            Some(t) => {
                r.push(MonitoringService::ping_result(target, t.as_str()));
            },
            None => {
                r.push(
                    PingTest {
                        target: target.to_string(),
                        latency_micros: None,
                        success: false,
                        error: Some("No output from probe".to_string()),
                    },
                );
            },
        }
        i = i + 1;
    }
    r
}

pub open spec fn opt_view(o: Option<&str>) -> Option<Seq<char>> {
    match o {
        Some(s) => Some(s@),
        None => None,
    }
}

/// Builds a snapshot from the outputs of the metrics command and of the
/// reachability command (`None` where that round trip failed). Each family
/// that does not read degrades to zeros or to nothing and is listed; the
/// collection fails once `FAILURE_THRESHOLD` families have degraded.
pub fn assemble_snapshot(
    server_id: &str,
    timestamp: u64,
    metrics_output: &str,
    ping_output: Option<&str>,
) -> (r: Result<Collected, CollectError>)
    ensures
        ({
            let secs = sections(metrics_output@);
            let deg = degraded_spec(secs, opt_view(ping_output));
            &&& r is Ok <==> deg.len() < FAILURE_THRESHOLD
            &&& r matches Err(e) ==> e.degraded@ == deg
            &&& r matches Ok(c) ==> {
                &&& c.degraded@ == deg
                &&& c.data.server_id@ == server_id@
                &&& c.data.timestamp == timestamp
                &&& cpu_matches(c.data.cpu, secs)
                &&& c.data.memory == memory_of(secs)
                &&& disks_match(c.data.disks@, secs)
                &&& network_matches_all(c.data.network@, secs)
                &&& ports_match(c.data.ports@, secs)
                &&& system_matches(c.data.system_info, secs)
                &&& match ping_output {
                    Some(o) => pings_match(c.data.ping_tests@, o@),
                    None => c.data.ping_tests@.len() == 0,
                }
            }
        }),
{
    let secs = split_chars(&chars_of(metrics_output), SECTION_SEPARATOR);
    let ghost s = seqs(secs@);
    let (cpu, cpu_ok) = cpu_from_sections(&secs);
    let (memory, mem_ok) = memory_from_sections(&secs);
    let (disks, disk_ok) = disks_from_sections(&secs);
    let (network, net_ok) = network_from_sections(&secs);
    let (system_info, sys_ok) = system_from_sections(&secs);
    let (ports, ports_ok) = ports_from_sections(&secs);
    let (ping_tests, ping_ok) = match ping_output {
        Some(o) => (pings_from_output(o), true),
        None => (Vec::new(), false),
    };
    let mut degraded: Vec<MetricFamily> = Vec::new();
    if !cpu_ok {
        degraded.push(MetricFamily::Cpu);
    }
    let ghost d1 = degraded@;
    if !mem_ok {
        degraded.push(MetricFamily::Memory);
    }
    let ghost d2 = degraded@;
    if !disk_ok {
        degraded.push(MetricFamily::Disk);
    }
    let ghost d3 = degraded@;
    if !net_ok {
        degraded.push(MetricFamily::Network);
    }
    let ghost d4 = degraded@;
    if !sys_ok {
        degraded.push(MetricFamily::System);
    }
    let ghost d5 = degraded@;
    if !ports_ok {
        degraded.push(MetricFamily::Ports);
    }
    let ghost d6 = degraded@;
    if !ping_ok {
        degraded.push(MetricFamily::Ping);
    }
    assert(degraded@ =~= degraded_spec(s, opt_view(ping_output))) by {
        assert(d1 =~= (if cpu_ok { seq![] } else { seq![MetricFamily::Cpu] }));
        assert(d2 =~= d1 + (if mem_ok { seq![] } else { seq![MetricFamily::Memory] }));
        assert(d3 =~= d2 + (if disk_ok { seq![] } else { seq![MetricFamily::Disk] }));
        assert(d4 =~= d3 + (if net_ok { seq![] } else { seq![MetricFamily::Network] }));
        assert(d5 =~= d4 + (if sys_ok { seq![] } else { seq![MetricFamily::System] }));
        assert(d6 =~= d5 + (if ports_ok { seq![] } else { seq![MetricFamily::Ports] }));
        assert(degraded@ =~= d6 + (if ping_ok { seq![] } else { seq![MetricFamily::Ping] }));
    }
    if degraded.len() >= FAILURE_THRESHOLD {
        return Err(CollectError { degraded });
    }
    Ok(
        Collected {
            data: MonitoringData {
                server_id: server_id.to_string(),
                timestamp,
                cpu,
                memory,
                disks,
                network,
                ports,
                ping_tests,
                system_info,
            },
            degraded,
        },
    )
}


/// Every metric family, in order.
pub open spec fn all_families() -> Seq<MetricFamily> {
    seq![
        MetricFamily::Cpu,
        MetricFamily::Memory,
        MetricFamily::Disk,
        MetricFamily::Network,
        MetricFamily::System,
        MetricFamily::Ports,
        MetricFamily::Ping,
    ]
}

fn family_in(f: MetricFamily, v: &Vec<MetricFamily>) -> (r: bool)
    ensures
        r == v@.contains(f),
{
    let mut i: usize = 0;
    while i < v.len()
        invariant
            i <= v.len(),
            forall|j: int| 0 <= j < i ==> v@[j] != f,
        decreases v.len() - i,
    {
        if v[i] == f {
            return true;
        }
        i = i + 1;
    }
    false
}

/// The families that a snapshot holds: all but the degraded ones, in order.
pub fn collected_families(degraded: &Vec<MetricFamily>) -> (r: Vec<MetricFamily>)
    ensures
        r@ == all_families().filter(|f: MetricFamily| !degraded@.contains(f)),
{
    let all: Vec<MetricFamily> = vec![
        MetricFamily::Cpu,
        MetricFamily::Memory,
        MetricFamily::Disk,
        MetricFamily::Network,
        MetricFamily::System,
        MetricFamily::Ports,
        MetricFamily::Ping,
    ];
    assert(all@ == all_families());
    let ghost p = |f: MetricFamily| !degraded@.contains(f);
    let mut r: Vec<MetricFamily> = Vec::new();
    let mut i: usize = 0;
    assert(all@.subrange(0, 0).filter(p) =~= Seq::empty()) by {
        reveal(Seq::filter);
    }
    while i < all.len()
        invariant
            i <= all.len(),
            p == (|f: MetricFamily| !degraded@.contains(f)),
            r@ == all@.subrange(0, i as int).filter(p),
        decreases all.len() - i,
    {
        proof {
            reveal(Seq::filter);
            assert(all@.subrange(0, i + 1).drop_last() =~= all@.subrange(0, i as int));
        }
        if !family_in(all[i], degraded) {
            r.push(all[i]);
        }
        i = i + 1;
    }
    assert(all@.subrange(0, i as int) =~= all@);
    r
}

/// Whether a snapshot holds nothing usable for a family: no cores, no
/// memory total, no disks, interfaces, ports or reachability results, or no
/// host name.
pub open spec fn family_empty(d: MonitoringData, f: MetricFamily) -> bool {
    match f {
        MetricFamily::Cpu => d.cpu.cores == 0,
        MetricFamily::Memory => d.memory.total == 0,
        MetricFamily::Disk => d.disks@.len() == 0,
        MetricFamily::Network => d.network@.len() == 0,
        MetricFamily::Ports => d.ports@.len() == 0,
        MetricFamily::Ping => d.ping_tests@.len() == 0,
        MetricFamily::System => d.system_info.hostname@.len() == 0,
    }
}

/// Whether a snapshot holds nothing usable for a family (see `family_empty`).
pub fn is_family_empty(d: &MonitoringData, f: MetricFamily) -> (r: bool)
    ensures
        r == family_empty(*d, f),
{
    match f {
        MetricFamily::Cpu => d.cpu.cores == 0,
        MetricFamily::Memory => d.memory.total == 0,
        MetricFamily::Disk => d.disks.len() == 0,
        MetricFamily::Network => d.network.len() == 0,
        MetricFamily::Ports => d.ports.len() == 0,
        MetricFamily::Ping => d.ping_tests.len() == 0,
        MetricFamily::System => d.system_info.hostname.as_str().is_empty(),
    }
}

/// A metrics output cut short after its first `n` sections degrades exactly
/// the families whose sections are missing: every family whose sections are
/// all present reads as it does from the complete output, and every family
/// with a missing section degrades to its zero or empty value.
#[verifier::rlimit(100)]
pub proof fn lemma_truncated_output(secs: Seq<Seq<char>>, n: int, ping: Option<Seq<char>>)
    requires
        secs.len() == PROBE_SECTIONS,
        0 <= n < secs.len(),
    ensures
        ({
            let short = secs.subrange(0, n);
            let deg = degraded_spec(short, ping);
            &&& n > 3 ==> (cpu_spec_ok(short) == cpu_spec_ok(secs) && (forall|c: CpuInfo|
                cpu_matches(c, short) == cpu_matches(c, secs)))
            &&& n == 0 ==> !cpu_spec_ok(short) && deg.contains(MetricFamily::Cpu)
            &&& n > 5 ==> (memory_spec_ok(short) == memory_spec_ok(secs) && memory_of(short)
                == memory_of(secs))
            &&& n <= 4 ==> !memory_spec_ok(short) && memory_of(short) == zero_memory()
                && deg.contains(MetricFamily::Memory)
            &&& n > 6 ==> (disk_spec_ok(short) == disk_spec_ok(secs) && (forall|d: Seq<DiskInfo>|
                disks_match(d, short) == disks_match(d, secs)))
            &&& n <= 6 ==> !disk_spec_ok(short) && deg.contains(MetricFamily::Disk)
            &&& n > 7 ==> forall|v: Seq<NetworkInfo>|
                network_matches_all(v, short) == network_matches_all(v, secs)
            &&& n <= 7 ==> deg.contains(MetricFamily::Network)
            &&& n > 12 ==> system_spec_ok(short) && forall|x: SystemInfo|
                system_matches(x, short) == system_matches(x, secs)
            &&& n <= 12 ==> deg.contains(MetricFamily::System)
            &&& deg.contains(MetricFamily::Ports)
            &&& ping is Some ==> !deg.contains(MetricFamily::Ping)
        }),
{
    let short = secs.subrange(0, n);
    let deg = degraded_spec(short, ping);
    assert forall|i: int| 0 <= i < n implies section(short, i) == section(secs, i) by {}
    assert forall|i: int| n <= i implies section(short, i) is None by {}
    let a = (if cpu_spec_ok(short) { seq![] } else { seq![MetricFamily::Cpu] });
    let b = (if memory_spec_ok(short) { seq![] } else { seq![MetricFamily::Memory] });
    let c = (if disk_spec_ok(short) { seq![] } else { seq![MetricFamily::Disk] });
    let d = (if section(short, 7) is Some { seq![] } else { seq![MetricFamily::Network] });
    let e = (if system_spec_ok(short) { seq![] } else { seq![MetricFamily::System] });
    let f = (if section(short, 13) is Some { seq![] } else { seq![MetricFamily::Ports] });
    let g = (if ping is Some { seq![] } else { seq![MetricFamily::Ping] });
    assert(deg == a + b + c + d + e + f + g);
    if n == 0 {
        assert(deg[0] == MetricFamily::Cpu);
    }
    if n <= 4 {
        assert(deg[a.len() as int] == MetricFamily::Memory);
    }
    if n <= 6 {
        assert(deg[(a.len() + b.len()) as int] == MetricFamily::Disk);
    }
    if n <= 7 {
        assert(deg[(a.len() + b.len() + c.len()) as int] == MetricFamily::Network);
    }
    if n <= 12 {
        assert(deg[(a.len() + b.len() + c.len() + d.len()) as int] == MetricFamily::System);
    }
    assert(deg[(a.len() + b.len() + c.len() + d.len() + e.len()) as int] == MetricFamily::Ports);
    if ping is Some {
        assert forall|k: int| 0 <= k < deg.len() implies deg[k] != MetricFamily::Ping by {}
    }
}

} // verus!
