//! Plain-text tables of a snapshot and of processes.
use vstd::arithmetic::power2::{lemma2_to64, lemma_pow2_adds, lemma_pow2_pos, lemma_pow2_strictly_increases, lemma_pow2_unfold, pow2};
use vstd::prelude::*;

use crate::float::{f32_text_one_decimal, one_decimal, pow2_u128, push_one_decimal, round_half_even, Float32};
use crate::snapshot::{utc_instant_text, DiskInfo, ProcessInfo, SystemSnapshot};
use crate::text::{
    chars_of, decimal, decimal_string, digit_char_exec, pad_left, pad_right, push_char,
    push_decimal, push_padded_left, push_padded_right,
};

verus! {

/// Number of binary digits of `b` (0 for 0).
pub open spec fn bit_length(b: nat) -> nat
    decreases b,
{
    if b == 0 {
        0
    } else {
        1 + bit_length(b / 2)
    }
}

/// `b as f64`: `b` rounded to 53 significant bits, to the nearest, ties to
/// an even significand.
pub open spec fn as_f64_value(b: nat) -> nat {
    if bit_length(b) <= 53 {
        b
    } else {
        let s = (bit_length(b) - 53) as nat;
        round_half_even(b, pow2(s)) * pow2(s)
    }
}

/// How many times `r` can be divided by 1024 while at least 1024 (at most 4).
pub open spec fn unit_steps(r: nat) -> nat {
    if r >= pow2(40) {
        4
    } else if r >= pow2(30) {
        3
    } else if r >= pow2(20) {
        2
    } else if r >= pow2(10) {
        1
    } else {
        0
    }
}

pub open spec fn unit_name(k: nat) -> Seq<char> {
    if k == 1 {
        seq!['K', 'i', 'B']
    } else if k == 2 {
        seq!['M', 'i', 'B']
    } else if k == 3 {
        seq!['G', 'i', 'B']
    } else {
        seq!['T', 'i', 'B']
    }
}

/// A byte count as the tables write it: `512 B` below 1 KiB, otherwise the
/// size in the largest of KiB, MiB, GiB, TiB that keeps it at least 1, with
/// one decimal (`1.5 KiB`); the size is that of `bytes as f64`, rounded as
/// `{:.1}` rounds.
pub open spec fn bytes_text(bytes: nat) -> Seq<char> {
    let r = as_f64_value(bytes);
    let k = unit_steps(r);
    if k == 0 {
        decimal(bytes) + seq![' ', 'B']
    } else {
        one_decimal(round_half_even(10 * r, pow2(10 * k))) + seq![' '] + unit_name(k)
    }
}

/// The first `max_chars` characters of `s` (all of them when fewer).
pub open spec fn truncated(s: Seq<char>, max_chars: nat) -> Seq<char> {
    if s.len() > max_chars {
        s.take(max_chars as int)
    } else {
        s
    }
}

proof fn lemma_bit_length_bound(b: nat, n: nat)
    requires
        b < pow2(n),
    ensures
        bit_length(b) <= n,
    decreases n,
{
    if b > 0 {
        lemma_pow2_pos(n);
        if n == 0 {
            assert(pow2(0) == 1) by {
                lemma2_to64();
            }
        } else {
            lemma_pow2_unfold(n);
            lemma_bit_length_bound(b / 2, (n - 1) as nat);
        }
    }
}

/// `bytes as f64`, which is a whole number.
fn bytes_as_f64(bytes: u64) -> (r: u128)
    ensures
        r == as_f64_value(bytes as nat),
        r <= 0x1_0000_0000_0000_0000,
{
    let mut m: u64 = bytes;
    let mut length: u32 = 0;
    proof {
        lemma2_to64();
        lemma_bit_length_bound(bytes as nat, 64);
    }
    while m > 0
        invariant
            bit_length(bytes as nat) == length + bit_length(m as nat),
            bit_length(bytes as nat) <= 64,
        decreases m,
    {
        m = m / 2;
        length = length + 1;
    }
    if length <= 53 {
        return bytes as u128;
    }
    let s: u32 = length - 53;
    let d = pow2_u128(s);
    proof {
        lemma_pow2_pos(s as nat);
        if s < 11 {
            lemma_pow2_strictly_increases(s as nat, 11);
        }
    }
    let q: u128 = bytes as u128 / d;
    let rest: u128 = bytes as u128 % d;
    let rounded: u128 = if 2 * rest > d || (2 * rest == d && q % 2 == 1) {
        q + 1
    } else {
        q
    };
    proof {
        let k = pow2((64 - s) as nat);
        lemma_pow2_adds(s as nat, (64 - s) as nat);
        assert(s as nat + (64 - s) as nat == 64);
        assert(d * k == 0x1_0000_0000_0000_0000);
        assert(rounded * d <= d * k) by (nonlinear_arith)
            requires
                d > 0,
                q == bytes as u128 / d,
                rounded <= q + 1,
                bytes < d * k,
        {
            assert(q * d <= bytes);
            assert(q < k);
        }
    }
    rounded * d
}

/// A byte count as the tables write it (see `bytes_text`).
pub fn format_bytes(bytes: u64) -> (r: String)
    ensures
        r@ == bytes_text(bytes as nat),
{
    let size = bytes_as_f64(bytes);
    proof {
        lemma2_to64();
        lemma_pow2_adds(32, 8);
        lemma_pow2_adds(10, 10);
        lemma_pow2_adds(20, 10);
    }
    let steps: u32 = if size >= 0x100_0000_0000 {
        4
    } else if size >= 0x4000_0000 {
        3
    } else if size >= 0x10_0000 {
        2
    } else if size >= 0x400 {
        1
    } else {
        0
    };
    let mut out = String::new();
    if steps == 0 {
        push_decimal(&mut out, bytes as u128);
        push_char(&mut out, ' ');
        push_char(&mut out, 'B');
        proof {
            assert(out@ =~= bytes_text(bytes as nat));
        }
        return out;
    }
    let d = pow2_u128(10 * steps);
    proof {
        lemma_pow2_pos((10 * steps) as nat);
    }
    let p: u128 = 10 * size;
    let f = p / d;
    let rest = p % d;
    let t: u128 = if 2 * rest > d || (2 * rest == d && f % 2 == 1) {
        f + 1
    } else {
        f
    };
    push_decimal(&mut out, t / 10);
    push_char(&mut out, '.');
    push_char(&mut out, digit_char_exec(t % 10));
    push_char(&mut out, ' ');
    if steps == 1 {
        push_char(&mut out, 'K');
    } else if steps == 2 {
        push_char(&mut out, 'M');
    } else if steps == 3 {
        push_char(&mut out, 'G');
    } else {
        push_char(&mut out, 'T');
    }
    push_char(&mut out, 'i');
    push_char(&mut out, 'B');
    proof {
        assert(out@ =~= bytes_text(bytes as nat));
    }
    out
}

/// The first `max_chars` characters of `value`.
pub fn truncate(value: &str, max_chars: usize) -> (r: String)
    ensures
        r@ == truncated(value@, max_chars as nat),
{
    let chars = chars_of(value);
    let mut out = String::new();
    let mut i: usize = 0;
    while i < chars.len() && i < max_chars
        invariant
            chars@ == value@,
            i <= chars@.len(),
            i <= max_chars,
            out@ == chars@.take(i as int),
        decreases chars@.len() - i,
    {
        push_char(&mut out, chars[i]);
        proof {
            assert(chars@.take(i as int).push(chars@[i as int]) =~= chars@.take(i + 1));
        }
        i = i + 1;
    }
    proof {
        if chars@.len() <= max_chars {
            assert(chars@.take(i as int) =~= chars@);
        }
    }
    out
}

/// One row of the process table: `  {:>8}  {:<28} {:>7.1}% {:>12}` with the
/// pid, the name cut to 28 characters, the CPU usage and the memory.
pub open spec fn process_row_text(process: ProcessInfo) -> Seq<char> {
    seq![' ', ' '] + pad_left(decimal(process.pid as nat), 8) + seq![' ', ' '] + pad_right(
        truncated(process.name@, 28),
        28,
    ) + seq![' '] + pad_left(f32_text_one_decimal(process.cpu_percent.bits), 7) + seq!['%', ' ']
        + pad_left(bytes_text(process.memory_bytes as nat), 12) + seq!['\n']
}

/// The rows of the process table, in order.
pub open spec fn process_rows_text(processes: Seq<ProcessInfo>) -> Seq<char>
    decreases processes.len(),
{
    if processes.len() == 0 {
        Seq::empty()
    } else {
        process_rows_text(processes.drop_last()) + process_row_text(processes.last())
    }
}

/// The header line of the process table.
pub open spec fn process_header_text() -> Seq<char> {
    seq![' ', ' '] + pad_left("pid"@, 8) + seq![' ', ' '] + pad_right("name"@, 28) + seq![' ']
        + pad_left("cpu %"@, 8) + seq![' '] + pad_left("memory"@, 12) + seq!['\n']
}

/// The process table: the title line, the header, one row per process.
pub open spec fn process_table_text(processes: Seq<ProcessInfo>, title: Seq<char>) -> Seq<char> {
    title + seq!['\n'] + process_header_text() + process_rows_text(processes)
}

/// One row of the disk table: `  {:<32} {:>12} {:>12} {:>7.1}%` with the
/// mount point cut to 32 characters, used and total space, and usage.
pub open spec fn disk_row_text(disk: DiskInfo) -> Seq<char> {
    seq![' ', ' '] + pad_right(truncated(disk.mount_point@, 32), 32) + seq![' '] + pad_left(
        bytes_text(disk.used_bytes as nat),
        12,
    ) + seq![' '] + pad_left(bytes_text(disk.total_bytes as nat), 12) + seq![' '] + pad_left(
        f32_text_one_decimal(disk.used_percent.bits),
        7,
    ) + seq!['%', '\n']
}

pub open spec fn disk_rows_text(disks: Seq<DiskInfo>) -> Seq<char>
    decreases disks.len(),
{
    if disks.len() == 0 {
        Seq::empty()
    } else {
        disk_rows_text(disks.drop_last()) + disk_row_text(disks.last())
    }
}

/// `  {:<18} {:>10.1}%` for the CPU usage.
pub open spec fn cpu_line_text(snapshot: SystemSnapshot) -> Seq<char> {
    seq![' ', ' '] + pad_right("cpu"@, 18) + seq![' '] + pad_left(
        f32_text_one_decimal(snapshot.cpu.global_usage_percent.bits),
        10,
    ) + seq!['%', '\n']
}

/// `  {:<18} {:>10.1}% ({}/{})` for memory usage, used and total bytes.
pub open spec fn memory_line_text(snapshot: SystemSnapshot) -> Seq<char> {
    seq![' ', ' '] + pad_right("memory"@, 18) + seq![' '] + pad_left(
        f32_text_one_decimal(snapshot.memory.used_percent.bits),
        10,
    ) + seq!['%', ' ', '('] + bytes_text(snapshot.memory.used_bytes as nat) + seq!['/'] + bytes_text(
        snapshot.memory.total_bytes as nat,
    ) + seq![')', '\n']
}

/// `  {:<18} rx {:>10}/s  tx {:>10}/s  connections {:>4}` and a blank line.
pub open spec fn network_line_text(snapshot: SystemSnapshot) -> Seq<char> {
    seq![' ', ' '] + pad_right("network"@, 18) + " rx "@ + pad_left(
        bytes_text(snapshot.network.rx_bytes_per_sec as nat),
        10,
    ) + "/s  tx "@ + pad_left(bytes_text(snapshot.network.tx_bytes_per_sec as nat), 10)
        + "/s  connections "@ + pad_left(decimal(snapshot.network.active_connections as nat), 4)
        + seq!['\n', '\n']
}

/// The disk table: its title, header and one row per disk.
pub open spec fn disk_section_text(disks: Seq<DiskInfo>) -> Seq<char> {
    disk_header_text() + disk_rows_text(disks)
}

/// The whole snapshot report: time, CPU, memory, network, the disk table
/// and the table of top processes.
pub open spec fn snapshot_table_text(snapshot: SystemSnapshot) -> Seq<char> {
    "sysprobe snapshot\n"@ + "timestamp: "@ + utc_instant_text(
        snapshot.timestamp.seconds_spec(),
        snapshot.timestamp.nanoseconds_spec(),
    ) + "\n\n"@ + "system\n"@ + cpu_line_text(snapshot) + memory_line_text(snapshot)
        + network_line_text(snapshot) + disk_section_text(snapshot.disks@) + seq!['\n']
        + process_table_text(snapshot.top_processes@, "top processes"@)
}

/// One row of the history report: `  {:<34} {:>7.1}% {:>7.1}% {:>12} {:>12}`
/// with the time, CPU and memory usage, and bytes received and sent per second.
pub open spec fn history_row_text(snapshot: SystemSnapshot) -> Seq<char> {
    seq![' ', ' '] + pad_right(
        utc_instant_text(snapshot.timestamp.seconds_spec(), snapshot.timestamp.nanoseconds_spec()),
        34,
    ) + seq![' '] + pad_left(f32_text_one_decimal(snapshot.cpu.global_usage_percent.bits), 7)
        + seq!['%', ' '] + pad_left(f32_text_one_decimal(snapshot.memory.used_percent.bits), 7)
        + seq!['%', ' '] + pad_left(bytes_text(snapshot.network.rx_bytes_per_sec as nat), 12)
        + seq![' '] + pad_left(bytes_text(snapshot.network.tx_bytes_per_sec as nat), 12) + seq![
        '\n',
    ]
}

pub open spec fn history_rows_text(snapshots: Seq<SystemSnapshot>) -> Seq<char>
    decreases snapshots.len(),
{
    if snapshots.len() == 0 {
        Seq::empty()
    } else {
        history_rows_text(snapshots.drop_last()) + history_row_text(snapshots.last())
    }
}

/// The header line of the history report.
pub open spec fn history_header_text() -> Seq<char> {
    seq![' ', ' '] + pad_right("timestamp"@, 34) + seq![' '] + pad_left("cpu %"@, 8) + seq![' ']
        + pad_left("mem %"@, 8) + seq![' '] + pad_left("rx/s"@, 12) + seq![' '] + pad_left(
        "tx/s"@,
        12,
    ) + seq!['\n']
}

/// The history report: a title with the window and the number of samples,
/// the header, one row per sample.
pub open spec fn history_table_text(snapshots: Seq<SystemSnapshot>, window: Seq<char>) -> Seq<char> {
    "sysprobe history (last "@ + window + ", "@ + decimal(snapshots.len()) + " samples)\n"@
        + history_header_text() + history_rows_text(snapshots)
}

fn append_history_row(output: &mut String, snapshot: &SystemSnapshot)
    ensures
        final(output)@ == old(output)@ + history_row_text(*snapshot),
{
    let ghost start = output@;
    output.append("  ");
    let at = snapshot.timestamp.display();
    push_padded_right(output, at.as_str(), 34);
    push_char(output, ' ');
    push_percent(output, snapshot.cpu.global_usage_percent, 7);
    push_char(output, '%');
    push_char(output, ' ');
    push_percent(output, snapshot.memory.used_percent, 7);
    push_char(output, '%');
    push_char(output, ' ');
    let rx = format_bytes(snapshot.network.rx_bytes_per_sec);
    push_padded_left(output, rx.as_str(), 12);
    push_char(output, ' ');
    let tx = format_bytes(snapshot.network.tx_bytes_per_sec);
    push_padded_left(output, tx.as_str(), 12);
    push_char(output, '\n');
    proof {
        reveal_strlit("  ");
        assert(output@ =~= start + history_row_text(*snapshot));
    }
}

fn append_history_header(output: &mut String)
    ensures
        final(output)@ == old(output)@ + history_header_text(),
{
    let ghost start = output@;
    output.append("  ");
    push_padded_right(output, "timestamp", 34);
    push_char(output, ' ');
    push_padded_left(output, "cpu %", 8);
    push_char(output, ' ');
    push_padded_left(output, "mem %", 8);
    push_char(output, ' ');
    push_padded_left(output, "rx/s", 12);
    push_char(output, ' ');
    push_padded_left(output, "tx/s", 12);
    push_char(output, '\n');
    proof {
        reveal_strlit("  ");
        assert(output@ =~= start + history_header_text());
    }
}

/// The history report of `snapshots` over the window written `window`.
pub fn render_history_table(snapshots: &[SystemSnapshot], window: &str) -> (r: String)
    ensures
        r@ == history_table_text(snapshots@, window@),
{
    let mut output = String::new();
    output.append("sysprobe history (last ");
    output.append(window);
    output.append(", ");
    push_decimal(&mut output, snapshots.len() as u128);
    output.append(" samples)\n");
    append_history_header(&mut output);
    let ghost head = output@;
    let mut i: usize = 0;
    while i < snapshots.len()
        invariant
            i <= snapshots@.len(),
            output@ == head + history_rows_text(snapshots@.take(i as int)),
        decreases snapshots@.len() - i,
    {
        append_history_row(&mut output, &snapshots[i]);
        proof {
            assert(snapshots@.take(i + 1).drop_last() =~= snapshots@.take(i as int));
        }
        i = i + 1;
    }
    proof {
        assert(snapshots@.take(i as int) =~= snapshots@);
        assert(output@ =~= history_table_text(snapshots@, window@));
    }
    output
}

/// Appends `format!("{:>width$.1}", value)`.
fn push_percent(out: &mut String, value: Float32, width: usize)
    ensures
        final(out)@ == old(out)@ + pad_left(f32_text_one_decimal(value.bits), width as nat),
{
    let mut text = String::new();
    push_one_decimal(&mut text, value);
    proof {
        assert(text@ =~= f32_text_one_decimal(value.bits));
    }
    push_padded_left(out, text.as_str(), width);
}

fn append_process_row(output: &mut String, process: &ProcessInfo)
    ensures
        final(output)@ == old(output)@ + process_row_text(*process),
{
    let ghost start = output@;
    output.append("  ");
    let pid = decimal_string(process.pid as u128);
    push_padded_left(output, pid.as_str(), 8);
    output.append("  ");
    let name = truncate(process.name.as_str(), 28);
    push_padded_right(output, name.as_str(), 28);
    push_char(output, ' ');
    push_percent(output, process.cpu_percent, 7);
    push_char(output, '%');
    push_char(output, ' ');
    let memory = format_bytes(process.memory_bytes);
    push_padded_left(output, memory.as_str(), 12);
    push_char(output, '\n');
    proof {
        reveal_strlit("  ");
        assert(output@ =~= start + process_row_text(*process));
    }
}

fn append_disk_row(output: &mut String, disk: &DiskInfo)
    ensures
        final(output)@ == old(output)@ + disk_row_text(*disk),
{
    let ghost start = output@;
    output.append("  ");
    let mount = truncate(disk.mount_point.as_str(), 32);
    push_padded_right(output, mount.as_str(), 32);
    push_char(output, ' ');
    let used = format_bytes(disk.used_bytes);
    push_padded_left(output, used.as_str(), 12);
    push_char(output, ' ');
    let total = format_bytes(disk.total_bytes);
    push_padded_left(output, total.as_str(), 12);
    push_char(output, ' ');
    push_percent(output, disk.used_percent, 7);
    push_char(output, '%');
    push_char(output, '\n');
    proof {
        reveal_strlit("  ");
        assert(output@ =~= start + disk_row_text(*disk));
    }
}

fn append_cpu_line(output: &mut String, snapshot: &SystemSnapshot)
    ensures
        final(output)@ == old(output)@ + cpu_line_text(*snapshot),
{
    let ghost start = output@;
    output.append("  ");
    push_padded_right(output, "cpu", 18);
    push_char(output, ' ');
    push_percent(output, snapshot.cpu.global_usage_percent, 10);
    push_char(output, '%');
    push_char(output, '\n');
    proof {
        reveal_strlit("  ");
        assert(output@ =~= start + cpu_line_text(*snapshot));
    }
}

fn append_memory_line(output: &mut String, snapshot: &SystemSnapshot)
    ensures
        final(output)@ == old(output)@ + memory_line_text(*snapshot),
{
    let ghost start = output@;
    output.append("  ");
    push_padded_right(output, "memory", 18);
    push_char(output, ' ');
    push_percent(output, snapshot.memory.used_percent, 10);
    push_char(output, '%');
    push_char(output, ' ');
    push_char(output, '(');
    let used = format_bytes(snapshot.memory.used_bytes);
    output.append(used.as_str());
    push_char(output, '/');
    let total = format_bytes(snapshot.memory.total_bytes);
    output.append(total.as_str());
    push_char(output, ')');
    push_char(output, '\n');
    proof {
        reveal_strlit("  ");
        assert(output@ =~= start + memory_line_text(*snapshot));
    }
}

fn append_network_line(output: &mut String, snapshot: &SystemSnapshot)
    ensures
        final(output)@ == old(output)@ + network_line_text(*snapshot),
{
    let ghost start = output@;
    output.append("  ");
    push_padded_right(output, "network", 18);
    output.append(" rx ");
    let rx = format_bytes(snapshot.network.rx_bytes_per_sec);
    push_padded_left(output, rx.as_str(), 10);
    output.append("/s  tx ");
    let tx = format_bytes(snapshot.network.tx_bytes_per_sec);
    push_padded_left(output, tx.as_str(), 10);
    output.append("/s  connections ");
    let connections = decimal_string(snapshot.network.active_connections as u128);
    push_padded_left(output, connections.as_str(), 4);
    push_char(output, '\n');
    push_char(output, '\n');
    proof {
        reveal_strlit("  ");
        assert(output@ =~= start + network_line_text(*snapshot));
    }
}

/// The title and header of the disk table.
pub open spec fn disk_header_text() -> Seq<char> {
    "disks\n"@ + seq![' ', ' '] + pad_right("mount"@, 32) + seq![' '] + pad_left("used"@, 12)
        + seq![' '] + pad_left("total"@, 12) + seq![' '] + pad_left("used %"@, 8) + seq!['\n']
}

fn append_disk_header(output: &mut String)
    ensures
        final(output)@ == old(output)@ + disk_header_text(),
{
    let ghost start = output@;
    output.append("disks\n");
    output.append("  ");
    push_padded_right(output, "mount", 32);
    push_char(output, ' ');
    push_padded_left(output, "used", 12);
    push_char(output, ' ');
    push_padded_left(output, "total", 12);
    push_char(output, ' ');
    push_padded_left(output, "used %", 8);
    push_char(output, '\n');
    proof {
        reveal_strlit("  ");
        assert(output@ =~= start + disk_header_text());
    }
}

fn append_disk_section(output: &mut String, disks: &Vec<DiskInfo>)
    ensures
        final(output)@ == old(output)@ + disk_section_text(disks@),
{
    let ghost start = output@;
    append_disk_header(output);
    let ghost head = output@;
    let mut i: usize = 0;
    while i < disks.len()
        invariant
            i <= disks@.len(),
            output@ == head + disk_rows_text(disks@.take(i as int)),
        decreases disks@.len() - i,
    {
        append_disk_row(output, &disks[i]);
        proof {
            assert(disks@.take(i + 1).drop_last() =~= disks@.take(i as int));
        }
        i = i + 1;
    }
    proof {
        assert(disks@.take(i as int) =~= disks@);
        assert(output@ =~= start + disk_section_text(disks@));
    }
}

/// The process rows of a list followed by another are the rows of the first
/// then those of the second: one row per process, in order, none left out.
pub proof fn lemma_process_rows_concat(first: Seq<ProcessInfo>, second: Seq<ProcessInfo>)
    ensures
        process_rows_text(first + second) == process_rows_text(first) + process_rows_text(second),
    decreases second.len(),
{
    if second.len() == 0 {
        assert(first + second =~= first);
        assert(process_rows_text(first) + Seq::<char>::empty() =~= process_rows_text(first));
    } else {
        lemma_process_rows_concat(first, second.drop_last());
        assert((first + second).drop_last() =~= first + second.drop_last());
        assert((first + second).last() == second.last());
        assert(process_rows_text(first) + process_rows_text(second.drop_last()) + process_row_text(
            second.last(),
        ) =~= process_rows_text(first) + (process_rows_text(second.drop_last()) + process_row_text(
            second.last(),
        )));
    }
}

/// The process table: no rows for no processes; a single process gives its
/// one row; one more process, whatever its fields, adds exactly its row at
/// the end of the table.
pub proof fn lemma_process_table_one_row_each(
    processes: Seq<ProcessInfo>,
    process: ProcessInfo,
    title: Seq<char>,
)
    ensures
        process_table_text(Seq::empty(), title) == title + seq!['\n'] + process_header_text(),
        process_rows_text(seq![process]) == process_row_text(process),
        process_table_text(processes.push(process), title) == process_table_text(processes, title)
            + process_row_text(process),
{
    assert(seq![process].drop_last() =~= Seq::<ProcessInfo>::empty());
    assert(Seq::<char>::empty() + process_row_text(process) =~= process_row_text(process));
    assert(title + seq!['\n'] + process_header_text() + Seq::<char>::empty() =~= title + seq!['\n']
        + process_header_text());
    lemma_process_rows_concat(processes, seq![process]);
    assert(processes + seq![process] =~= processes.push(process));
    assert(title + seq!['\n'] + process_header_text() + (process_rows_text(processes)
        + process_row_text(process)) =~= title + seq!['\n'] + process_header_text()
        + process_rows_text(processes) + process_row_text(process));
}

/// The disk rows of a list followed by another are the rows of the first
/// then those of the second: one row per disk, in order, none left out.
pub proof fn lemma_disk_rows_concat(first: Seq<DiskInfo>, second: Seq<DiskInfo>)
    ensures
        disk_rows_text(first + second) == disk_rows_text(first) + disk_rows_text(second),
    decreases second.len(),
{
    if second.len() == 0 {
        assert(first + second =~= first);
        assert(disk_rows_text(first) + Seq::<char>::empty() =~= disk_rows_text(first));
    } else {
        lemma_disk_rows_concat(first, second.drop_last());
        assert((first + second).drop_last() =~= first + second.drop_last());
        assert((first + second).last() == second.last());
        assert(disk_rows_text(first) + disk_rows_text(second.drop_last()) + disk_row_text(
            second.last(),
        ) =~= disk_rows_text(first) + (disk_rows_text(second.drop_last()) + disk_row_text(
            second.last(),
        )));
    }
}

/// The disk table of the snapshot report: just its title and header for no
/// disks; a single disk gives its one row; one more disk adds exactly its
/// row at the end of the table.
pub proof fn lemma_disk_section_one_row_each(disks: Seq<DiskInfo>, disk: DiskInfo)
    ensures
        disk_section_text(Seq::empty()) == disk_header_text(),
        disk_rows_text(seq![disk]) == disk_row_text(disk),
        disk_section_text(disks.push(disk)) == disk_section_text(disks) + disk_row_text(disk),
{
    assert(seq![disk].drop_last() =~= Seq::<DiskInfo>::empty());
    assert(Seq::<char>::empty() + disk_row_text(disk) =~= disk_row_text(disk));
    assert(disk_header_text() + Seq::<char>::empty() =~= disk_header_text());
    lemma_disk_rows_concat(disks, seq![disk]);
    assert(disks + seq![disk] =~= disks.push(disk));
    assert(disk_header_text() + (disk_rows_text(disks) + disk_row_text(disk)) =~= disk_header_text()
        + disk_rows_text(disks) + disk_row_text(disk));
}

/// The snapshot report (see `snapshot_table_text`).
pub fn render_snapshot_table(snapshot: &SystemSnapshot) -> (r: String)
    ensures
        r@ == snapshot_table_text(*snapshot),
{
    let mut output = String::new();
    output.append("sysprobe snapshot\n");
    output.append("timestamp: ");
    let at = snapshot.timestamp.display();
    output.append(at.as_str());
    output.append("\n\n");
    output.append("system\n");
    append_cpu_line(&mut output, snapshot);
    append_memory_line(&mut output, snapshot);
    append_network_line(&mut output, snapshot);
    append_disk_section(&mut output, &snapshot.disks);
    push_char(&mut output, '\n');
    let processes = render_process_table(snapshot.top_processes.as_slice(), "top processes");
    output.append(processes.as_str());
    proof {
        assert(output@ =~= snapshot_table_text(*snapshot));
    }
    output
}

/// The process table: `title`, the header, then one row per process.
pub fn render_process_table(processes: &[ProcessInfo], title: &str) -> (r: String)
    ensures
        r@ == process_table_text(processes@, title@),
{
    let mut output = String::new();
    output.append(title);
    push_char(&mut output, '\n');
    output.append("  ");
    push_padded_left(&mut output, "pid", 8);
    output.append("  ");
    push_padded_right(&mut output, "name", 28);
    push_char(&mut output, ' ');
    push_padded_left(&mut output, "cpu %", 8);
    push_char(&mut output, ' ');
    push_padded_left(&mut output, "memory", 12);
    push_char(&mut output, '\n');
    proof {
        reveal_strlit("  ");
        assert(output@ =~= title@ + seq!['\n'] + process_header_text());
    }
    let ghost head = output@;
    let mut i: usize = 0;
    while i < processes.len()
        invariant
            i <= processes@.len(),
            output@ == head + process_rows_text(processes@.take(i as int)),
        decreases processes@.len() - i,
    {
        append_process_row(&mut output, &processes[i]);
        proof {
            assert(processes@.take(i + 1).drop_last() =~= processes@.take(i as int));
        }
        i = i + 1;
    }
    proof {
        assert(processes@.take(i as int) =~= processes@);
    }
    output
}

} // verus!
