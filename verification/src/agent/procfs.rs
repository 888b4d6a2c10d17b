//! What the agent reads out of the kernel's process files.

use crate::sums::sum_of;
use crate::text::{
    begins_with, blank, chars_of, decimal, find_from, find_last, is_digit, is_space, last_index,
    law_decimal_reads_back, law_find_from, law_last_index, law_trimmed, lines, lines_of, number_of,
    occurs_at, parse_number, same, search, slice_of, stands_at, trim, trimmed, views, whole_text,
    words, words_of,
};
use vstd::prelude::*;

verus! {

/// Fields of a process's `stat` file.
#[derive(Clone, Copy, Debug, PartialEq, Eq, Structural)]
pub struct ProcStat {
    /// User and kernel time together, in clock ticks
    pub cpu_ticks: u128,
    /// Minor page faults (memory access from page cache)
    pub minflt: u64,
    /// Major page faults (disk to memory)
    pub majflt: u64,
}

/// The number that the `i`-th word writes.
pub open spec fn word_number(words: Seq<Seq<char>>, i: int) -> Option<int> {
    number_of(words[i], u64::MAX as int)
}

/// The fields of a `stat` file: they follow the last closing bracket, which ends the process's
/// name. Page faults are the fields at 7 and 9, user and kernel time those at 11 and 12.
pub open spec fn stat_of(content: Seq<char>) -> Option<ProcStat> {
    let close = last_index(content, ')');
    let fields = words_of(content.skip(close + 1));
    if close < 0 || fields.len() < 13 {
        None
    } else {
        match (
            word_number(fields, 7),
            word_number(fields, 9),
            word_number(fields, 11),
            word_number(fields, 12),
        ) {
            (Some(minflt), Some(majflt), Some(utime), Some(stime)) => Some(
                ProcStat {
                    cpu_ticks: (utime + stime) as u128,
                    minflt: minflt as u64,
                    majflt: majflt as u64,
                },
            ),
            _ => None,
        }
    }
}

fn field(words: &Vec<Vec<char>>, i: usize) -> (r: Option<u64>)
    requires
        i < words@.len(),
    ensures
        match r {
            Some(n) => word_number(views(words@), i as int) == Some(n as int),
            None => word_number(views(words@), i as int) is None,
        },
{
    parse_number(&words[i], 0xffff_ffff_ffff_ffff)
}

/// Reads CPU time and page fault counters from the text of a process's `stat` file.
pub fn read_proc_stat(content: &str) -> (r: Option<ProcStat>)
    ensures
        r == stat_of(content@),
        r is Some ==> r->0.cpu_ticks <= MAX_AMOUNT,
{
    let chars: Vec<char> = chars_of(content);
    let close: usize = match find_last(&chars, ')') {
        Some(i) => i,
        None => {
            return None;
        },
    };
    let end: usize = chars.len();
    assert(close < end);
    let rest: Vec<char> = slice_of(&chars, close + 1, end);
    assert(rest@ =~= content@.skip(close + 1));
    let fields: Vec<Vec<char>> = words(&rest);
    assert(views(fields@).len() == fields@.len());
    if fields.len() < 13 {
        return None;
    }
    let minflt: Option<u64> = field(&fields, 7);
    let majflt: Option<u64> = field(&fields, 9);
    let utime: Option<u64> = field(&fields, 11);
    let stime: Option<u64> = field(&fields, 12);
    match (minflt, majflt, utime, stime) {
        (Some(minflt), Some(majflt), Some(utime), Some(stime)) => Some(
            ProcStat { cpu_ticks: utime as u128 + stime as u128, minflt, majflt },
        ),
        _ => None,
    }
}

/// Reads CPU time alone from the text of a process's `stat` file.
pub fn read_cpu_ticks(content: &str) -> (r: Option<u128>)
    ensures
        r == match stat_of(content@) {
            Some(s) => Some(s.cpu_ticks),
            None => None,
        },
{
    match read_proc_stat(content) {
        Some(s) => Some(s.cpu_ticks),
        None => None,
    }
}

/// The first of `lines` that begins with `key`, from `from` on.
pub open spec fn keyed_line(lines: Seq<Seq<char>>, key: Seq<char>, from: int) -> Option<Seq<char>>
    decreases lines.len() - from,
{
    if from < 0 || from >= lines.len() {
        None
    } else if begins_with(lines[from], key) {
        Some(lines[from])
    } else {
        keyed_line(lines, key, from + 1)
    }
}

/// Finds the first line that begins with `key`.
pub fn find_line(lines: &Vec<Vec<char>>, key: &str) -> (r: Option<usize>)
    ensures
        match r {
            Some(i) => i < lines@.len() && keyed_line(views(lines@), key@, 0) == Some(
                lines@[i as int]@,
            ),
            None => keyed_line(views(lines@), key@, 0) is None,
        },
{
    let mut i: usize = 0;
    while i < lines.len()
        invariant
            i <= lines@.len(),
            keyed_line(views(lines@), key@, 0) == keyed_line(views(lines@), key@, i as int),
        decreases lines@.len() - i,
    {
        assert(views(lines@)[i as int] == lines@[i as int]@);
        if stands_at(&lines[i], key, 0) {
            return Some(i);
        }
        i = i + 1;
    }
    None
}

/// The number in the first line that begins with `key`: its second word.
pub open spec fn keyed_number(content: Seq<char>, key: Seq<char>) -> Option<int> {
    match keyed_line(lines_of(content), key, 0) {
        Some(line) => if words_of(line).len() > 1 {
            word_number(words_of(line), 1)
        } else {
            None
        },
        None => None,
    }
}

/// Reads the number in the first line that begins with `key`.
pub fn read_keyed_number(content: &str, key: &str) -> (r: Option<u64>)
    ensures
        match r {
            Some(n) => keyed_number(content@, key@) == Some(n as int),
            None => keyed_number(content@, key@) is None,
        },
{
    let all: Vec<Vec<char>> = lines(&chars_of(content));
    match find_line(&all, key) {
        Some(i) => {
            let fields: Vec<Vec<char>> = words(&all[i]);
            assert(views(fields@).len() == fields@.len());
            if fields.len() > 1 {
                field(&fields, 1)
            } else {
                None
            }
        },
        None => None,
    }
}

/// The proportional set size that a `smaps_rollup` file gives, in KB: the word after `Pss:`.
pub open spec fn pss_of(content: Seq<char>) -> Option<int> {
    keyed_number(content, "Pss:"@)
}

/// Reads the proportional set size from the text of a process's `smaps_rollup` file, in KB.
pub fn read_pss_kb(content: &str) -> (r: Option<u64>)
    ensures
        match r {
            Some(n) => pss_of(content@) == Some(n as int),
            None => pss_of(content@) is None,
        },
{
    read_keyed_number(content, "Pss:")
}

/// The resident set size that a `statm` file gives, in pages: its second word.
pub open spec fn rss_of(content: Seq<char>) -> Option<int> {
    if words_of(content).len() < 2 {
        None
    } else {
        word_number(words_of(content), 1)
    }
}

/// Reads the resident set size from the text of a process's `statm` file, in pages.
pub fn read_rss_pages(content: &str) -> (r: Option<u64>)
    ensures
        match r {
            Some(n) => rss_of(content@) == Some(n as int),
            None => rss_of(content@) is None,
        },
{
    let fields: Vec<Vec<char>> = words(&chars_of(content));
    assert(views(fields@).len() == fields@.len());
    if fields.len() < 2 {
        return None;
    }
    field(&fields, 1)
}

/// Whether a `status` file tells a thread from its process: it names another thread group.
pub open spec fn is_thread(status: Seq<char>, pid: Seq<char>) -> bool {
    match keyed_line(lines_of(status), "Tgid:"@, 0) {
        Some(line) => (if words_of(line).len() > 1 {
            words_of(line)[1]
        } else {
            Seq::empty()
        }) != pid,
        None => false,
    }
}

/// Whether the text of a `status` file says that `pid` is a thread and no process of its own.
pub fn names_thread(status: &str, pid: &str) -> (r: bool)
    ensures
        r == is_thread(status@, pid@),
{
    let all: Vec<Vec<char>> = lines(&chars_of(status));
    match find_line(&all, "Tgid:") {
        Some(i) => {
            let fields: Vec<Vec<char>> = words(&all[i]);
            assert(views(fields@).len() == fields@.len());
            let tgid: String = if fields.len() > 1 {
                whole_text(&fields[1])
            } else {
                String::new()
            };
            assert(tgid@ =~= if fields@.len() > 1 {
                views(fields@)[1]
            } else {
                Seq::empty()
            });
            !same(tgid.as_str(), pid)
        },
        None => false,
    }
}

/// Whether a directory's name is a process ID: nothing but digits.
pub fn is_pid_name(name: &str) -> (r: bool)
    ensures
        r == crate::text::all_digits(name@),
{
    let chars: Vec<char> = chars_of(name);
    let mut i: usize = 0;
    while i < chars.len()
        invariant
            i <= chars@.len(),
            chars@ == name@,
            forall|j: int| 0 <= j < i ==> is_digit(#[trigger] chars@[j]),
        decreases chars@.len() - i,
    {
        if !('0' <= chars[i] && chars[i] <= '9') {
            assert(!is_digit(name@[i as int]));
            return false;
        }
        i = i + 1;
    }
    true
}

/// Counts the names that are process IDs.
pub open spec fn pid_names(names: Seq<String>) -> int
    decreases names.len(),
{
    if names.len() == 0 {
        0
    } else {
        pid_names(names.drop_last()) + if crate::text::all_digits(names.last()@) {
            1int
        } else {
            0
        }
    }
}

/// Counts the processes among the entries of the process directory.
pub fn count_processes(names: &Vec<String>) -> (r: u32)
    requires
        names@.len() <= u32::MAX,
    ensures
        r == pid_names(names@),
{
    let mut n: u32 = 0;
    let mut i: usize = 0;
    while i < names.len()
        invariant
            i <= names@.len() <= u32::MAX,
            n == pid_names(names@.take(i as int)),
            n <= i,
        decreases names@.len() - i,
    {
        assert(names@.take(i + 1).drop_last() =~= names@.take(i as int));
        if is_pid_name(names[i].as_str()) {
            n = n + 1;
        }
        i = i + 1;
    }
    assert(names@.take(i as int) =~= names@);
    n
}

// ─── Pod UIDs ───────────────────────────────────────────────────

/// Whether a character may stand in a pod's UID as a cgroup path writes it.
pub open spec fn is_uid_char(c: char) -> bool {
    is_digit(c) || 'a' <= c <= 'z' || 'A' <= c <= 'Z' || c == '_' || c == '-'
}

/// How many characters at the start may stand in a UID.
pub open spec fn uid_len(s: Seq<char>) -> int
    decreases s.len(),
{
    if s.len() == 0 || !is_uid_char(s[0]) {
        0
    } else {
        1 + uid_len(s.skip(1))
    }
}

/// The part of a cgroup line after its last colon.
pub open spec fn cgroup_path(line: Seq<char>) -> Seq<char> {
    line.skip(last_index(line, ':') + 1)
}

/// A UID as the cluster writes it: with dashes where the cgroup has underscores.
pub open spec fn with_dashes(s: Seq<char>) -> Seq<char> {
    s.map_values(
        |c: char|
            if c == '_' {
                '-'
            } else {
                c
            },
    )
}

/// The pod UID in one cgroup line: what follows the first `-pod`, if that is at least eight
/// characters long.
pub open spec fn line_uid(line: Seq<char>) -> Option<Seq<char>> {
    let path = cgroup_path(line);
    let pos = find_from(path, "-pod"@, 0);
    let rest = path.skip(pos + 4);
    if pos >= 0 && uid_len(rest) >= 8 {
        Some(with_dashes(rest.take(uid_len(rest))))
    } else {
        None
    }
}

/// The first pod UID in the lines from `from` on.
pub open spec fn uid_from(lines: Seq<Seq<char>>, from: int) -> Option<Seq<char>>
    decreases lines.len() - from,
{
    if from < 0 || from >= lines.len() {
        None
    } else if line_uid(lines[from]) is Some {
        line_uid(lines[from])
    } else {
        uid_from(lines, from + 1)
    }
}

/// The pod UID in a cgroup file.
pub open spec fn pod_uid_of(content: Seq<char>) -> Option<Seq<char>> {
    uid_from(lines_of(content), 0)
}

proof fn lemma_uid_len(s: Seq<char>, n: int)
    requires
        0 <= n <= s.len(),
        n < s.len() ==> !is_uid_char(s[n]),
        forall|i: int| 0 <= i < n ==> is_uid_char(#[trigger] s[i]),
    ensures
        uid_len(s) == n,
    decreases s.len(),
{
    if n > 0 {
        assert(is_uid_char(s[0]));
        assert forall|i: int| 0 <= i < n - 1 implies is_uid_char(#[trigger] s.skip(1)[i]) by {
            assert(s.skip(1)[i] == s[i + 1]);
        }
        lemma_uid_len(s.skip(1), n - 1);
    }
}

fn uid_char(c: char) -> (r: bool)
    ensures
        r == is_uid_char(c),
{
    ('0' <= c && c <= '9') || ('a' <= c && c <= 'z') || ('A' <= c && c <= 'Z') || c == '_' || c
        == '-'
}

fn uid_in_line(line: &Vec<char>) -> (r: Option<String>)
    ensures
        match r {
            Some(uid) => line_uid(line@) == Some(uid@),
            None => line_uid(line@) is None,
        },
{
    let end: usize = line.len();
    let start: usize = match find_last(line, ':') {
        Some(i) => i + 1,
        None => 0,
    };
    let path: Vec<char> = slice_of(line, start, end);
    assert(last_index(line@, ':') >= -1) by {
        lemma_last_index(line@, ':');
    }
    assert(path@ =~= cgroup_path(line@));
    let pos: usize = match search(&path, "-pod", 0) {
        Some(p) => p,
        None => {
            return None;
        },
    };
    proof {
        reveal_strlit("-pod");
    }
    let first: usize = pos + 4;
    let ghost rest = path@.skip(first as int);
    let mut end: usize = first;
    let mut uid: String = String::new();
    while end < path.len() && uid_char(path[end])
        invariant
            first <= end <= path@.len(),
            rest == path@.skip(first as int),
            forall|i: int| 0 <= i < end - first ==> is_uid_char(#[trigger] rest[i]),
            uid@ == with_dashes(rest.take(end - first)),
        decreases path@.len() - end,
    {
        assert(rest[end - first] == path@[end as int]);
        uid.push(
            if path[end] == '_' {
                '-'
            } else {
                path[end]
            },
        );
        end = end + 1;
        assert(uid@ =~= with_dashes(rest.take(end - first)));
    }
    proof {
        if end < path@.len() {
            assert(rest[end - first] == path@[end as int]);
        }
        lemma_uid_len(rest, end - first);
    }
    if end - first >= 8 {
        Some(uid)
    } else {
        None
    }
}

proof fn lemma_last_index(s: Seq<char>, c: char)
    ensures
        -1 <= last_index(s, c) < s.len(),
    decreases s.len(),
{
    if s.len() > 0 && s.last() != c {
        lemma_last_index(s.drop_last(), c);
    }
}

/// Extracts the pod UID from the text of a process's cgroup file. It stands in a path such as
/// `0::/kubepods.slice/kubepods-burstable.slice/kubepods-burstable-pod<UID>.slice/crio-...`
pub fn extract_pod_uid(cgroup_content: &str) -> (r: Option<String>)
    ensures
        match r {
            Some(uid) => pod_uid_of(cgroup_content@) == Some(uid@),
            None => pod_uid_of(cgroup_content@) is None,
        },
{
    let all: Vec<Vec<char>> = lines(&chars_of(cgroup_content));
    let mut i: usize = 0;
    while i < all.len()
        invariant
            i <= all@.len(),
            views(all@) == lines_of(cgroup_content@),
            pod_uid_of(cgroup_content@) == uid_from(lines_of(cgroup_content@), i as int),
        decreases all@.len() - i,
    {
        assert(views(all@)[i as int] == all@[i as int]@);
        let uid: Option<String> = uid_in_line(&all[i]);
        if uid.is_some() {
            return uid;
        }
        i = i + 1;
    }
    None
}

/// The largest CPU time or memory that a process's files can tell.
pub const MAX_AMOUNT: u128 = 0x4_0000_0000_0000_0000;

/// What one process's files say of it.
#[derive(Debug)]
pub struct ProcessSample {
    pub pid: u32,
    pub stat: ProcStat,
    /// Memory in KB, where it was read
    pub memory_kb: Option<u128>,
    /// The pod that the process belongs to
    pub pod_uid: Option<String>,
}

impl ProcessSample {
    /// Whether files can say it.
    pub open spec fn plausible(self) -> bool {
        self.stat.cpu_ticks <= MAX_AMOUNT && (self.memory_kb is Some ==> self.memory_kb->0
            <= MAX_AMOUNT)
    }
}

/// The memory that a process's files give, in KB: its proportional set size, or else its
/// resident pages of 4 KB, or else nothing.
pub open spec fn memory_of(smaps: Option<Seq<char>>, statm: Option<Seq<char>>) -> int {
    match (if smaps is Some {
        pss_of(smaps->0)
    } else {
        None
    }) {
        Some(kb) => kb,
        None => match (if statm is Some {
            rss_of(statm->0)
        } else {
            None
        }) {
            Some(pages) => pages * 4,
            None => 0,
        },
    }
}

/// Reads a process's memory in KB from the texts of its files.
pub fn read_memory_kb(smaps: Option<&str>, statm: Option<&str>) -> (r: u128)
    ensures
        r <= MAX_AMOUNT,
        r == memory_of(
            match smaps {
                Some(s) => Some(s@),
                None => None,
            },
            match statm {
                Some(s) => Some(s@),
                None => None,
            },
        ),
{
    let pss: Option<u64> = match smaps {
        Some(s) => read_pss_kb(s),
        None => None,
    };
    match pss {
        Some(kb) => kb as u128,
        None => {
            let rss: Option<u64> = match statm {
                Some(s) => read_rss_pages(s),
                None => None,
            };
            match rss {
                Some(pages) => pages as u128 * 4,
                None => 0,
            }
        },
    }
}

/// Reads one entry of the process directory: a process of its own whose `stat` file can be read.
/// A number too large for a process ID counts as 0.
pub fn read_process(
    name: &str,
    status: Option<&str>,
    stat: Option<&str>,
    memory_kb: Option<u128>,
    cgroup: Option<&str>,
) -> (r: Option<ProcessSample>)
    ensures
        r is Some <==> crate::text::all_digits(name@) && !(status is Some && is_thread(
            status->0@,
            name@,
        )) && stat is Some && stat_of(stat->0@) is Some,
        r is Some ==> {
            let s = r->0;
            &&& s.pid == match number_of(name@, u32::MAX as int) {
                Some(pid) => pid,
                None => 0,
            }
            &&& Some(s.stat) == stat_of(stat->0@)
            &&& s.memory_kb == memory_kb
            &&& (memory_kb is Some ==> memory_kb->0 <= MAX_AMOUNT) ==> s.plausible()
            &&& match s.pod_uid {
                Some(uid) => cgroup is Some && pod_uid_of(cgroup->0@) == Some(uid@),
                None => cgroup is None || pod_uid_of(cgroup->0@) is None,
            }
        },
{
    if !is_pid_name(name) {
        return None;
    }
    if let Some(text) = status {
        if names_thread(text, name) {
            return None;
        }
    }
    let stat: ProcStat = match stat {
        Some(text) => match read_proc_stat(text) {
            Some(s) => s,
            None => {
                return None;
            },
        },
        None => {
            return None;
        },
    };
    let pid: u32 = match parse_number(&chars_of(name), 0xffff_ffff) {
        Some(pid) => pid as u32,
        None => 0,
    };
    let pod_uid: Option<String> = match cgroup {
        Some(text) => extract_pod_uid(text),
        None => None,
    };
    Some(ProcessSample { pid, stat, memory_kb, pod_uid })
}

/// The node's name: the one that is set, or the host's, or the one in the host name file.
pub open spec fn node_name_of(
    node_name: Option<Seq<char>>,
    hostname: Option<Seq<char>>,
    hostname_file: Option<Seq<char>>,
) -> Seq<char> {
    match (node_name, hostname, hostname_file) {
        (Some(n), _, _) => n,
        (None, Some(h), _) => h,
        (None, None, Some(f)) => trimmed(f),
        (None, None, None) => "unknown"@,
    }
}

/// Tells the node's name.
pub fn get_node_name(
    node_name: Option<&str>,
    hostname: Option<&str>,
    hostname_file: Option<&str>,
) -> (r: String)
    ensures
        r@ == node_name_of(
            match node_name {
                Some(s) => Some(s@),
                None => None,
            },
            match hostname {
                Some(s) => Some(s@),
                None => None,
            },
            match hostname_file {
                Some(s) => Some(s@),
                None => None,
            },
        ),
{
    match node_name {
        Some(n) => n.to_owned(),
        None => match hostname {
            Some(h) => h.to_owned(),
            None => match hostname_file {
                Some(f) => whole_text(&trim(&chars_of(f))),
                None => "unknown".to_owned(),
            },
        },
    }
}

// ─── Laws ───────────────────────────────────────────────────────

/// A process's statistics stand behind the last bracket: its page faults in the eighth and the
/// tenth word there, its time in user mode and in the kernel in the twelfth and the thirteenth. Its
/// time is both together.
pub proof fn law_process_statistics(
    front: Seq<char>,
    tail: Seq<char>,
    minflt: u64,
    majflt: u64,
    utime: u64,
    stime: u64,
)
    requires
        !tail.contains(')'),
        words_of(tail).len() >= 13,
        words_of(tail)[7] == decimal(minflt as int),
        words_of(tail)[9] == decimal(majflt as int),
        words_of(tail)[11] == decimal(utime as int),
        words_of(tail)[12] == decimal(stime as int),
    ensures
        match stat_of(front.push(')') + tail) {
            Some(s) => s.cpu_ticks == utime + stime && s.minflt == minflt && s.majflt == majflt,
            None => false,
        },
{
    let content = front.push(')') + tail;
    law_last_index(content, ')');
    let k = last_index(content, ')');
    assert(content[front.len() as int] == ')');
    assert(content.contains(')'));
    if k > front.len() {
        assert(tail[k - front.len() - 1] == ')');
        assert(tail.contains(')'));
    }
    assert(content.skip(k + 1) =~= tail);
    law_decimal_reads_back(minflt as int, u64::MAX as int);
    law_decimal_reads_back(majflt as int, u64::MAX as int);
    law_decimal_reads_back(utime as int, u64::MAX as int);
    law_decimal_reads_back(stime as int, u64::MAX as int);
}

/// The line of a key is the first that begins with it.
pub proof fn law_keyed_line(lines: Seq<Seq<char>>, key: Seq<char>, from: int)
    requires
        0 <= from <= lines.len(),
    ensures
        forall|k: int|
            from <= k < lines.len() && begins_with(#[trigger] lines[k], key) && (forall|i: int|
                from <= i < k ==> !begins_with(#[trigger] lines[i], key)) ==> keyed_line(
                lines,
                key,
                from,
            ) == Some(lines[k]),
        (forall|k: int| from <= k < lines.len() ==> !begins_with(#[trigger] lines[k], key))
            ==> keyed_line(lines, key, from) is None,
    decreases lines.len() - from,
{
    if from < lines.len() {
        law_keyed_line(lines, key, from + 1);
        assert forall|k: int|
            from <= k < lines.len() && begins_with(#[trigger] lines[k], key) && (forall|i: int|
                from <= i < k ==> !begins_with(#[trigger] lines[i], key)) implies keyed_line(
            lines,
            key,
            from,
        ) == Some(lines[k]) by {
            if k > from {
                assert(!begins_with(lines[from], key));
            }
        }
        if forall|k: int| from <= k < lines.len() ==> !begins_with(#[trigger] lines[k], key) {
            assert(!begins_with(lines[from], key));
        }
    }
}

/// The number of a key is the second word of its line.
pub proof fn law_keyed_number(content: Seq<char>, key: Seq<char>, k: int, n: u64)
    requires
        0 <= k < lines_of(content).len(),
        begins_with(lines_of(content)[k], key),
        forall|i: int| 0 <= i < k ==> !begins_with(#[trigger] lines_of(content)[i], key),
        words_of(lines_of(content)[k]).len() > 1,
        words_of(lines_of(content)[k])[1] == decimal(n as int),
    ensures
        keyed_number(content, key) == Some(n as int),
        key == "Pss:"@ ==> pss_of(content) == Some(n as int),
{
    law_keyed_line(lines_of(content), key, 0);
    law_decimal_reads_back(n as int, u64::MAX as int);
}

/// A process's memory is its proportional share where that is told, else its resident pages of four
/// kilobytes each, which are the second word, else nothing.
pub proof fn law_memory_known(smaps: Seq<char>, statm: Seq<char>, kb: int, pages: u64)
    requires
        words_of(statm).len() >= 2,
        words_of(statm)[1] == decimal(pages as int),
    ensures
        pss_of(smaps) == Some(kb) ==> memory_of(Some(smaps), Some(statm)) == kb && memory_of(
            Some(smaps),
            None,
        ) == kb,
        pss_of(smaps) is None ==> memory_of(Some(smaps), Some(statm)) == 4 * pages,
        memory_of(None, Some(statm)) == 4 * pages,
        memory_of(None, None) == 0,
{
    law_decimal_reads_back(pages as int, u64::MAX as int);
}

/// What runs under another's group is a thread; a process is its own group, and one of which
/// nothing is told counts as a process.
pub proof fn law_threads(status: Seq<char>, pid: Seq<char>, k: int)
    requires
        0 <= k < lines_of(status).len(),
        begins_with(lines_of(status)[k], "Tgid:"@),
        forall|i: int| 0 <= i < k ==> !begins_with(#[trigger] lines_of(status)[i], "Tgid:"@),
        words_of(lines_of(status)[k]).len() > 1,
    ensures
        is_thread(status, pid) <==> words_of(lines_of(status)[k])[1] != pid,
{
    law_keyed_line(lines_of(status), "Tgid:"@, 0);
}

/// The names that are processes' are those of digits alone.
pub proof fn law_processes_counted(names: Seq<String>)
    ensures
        pid_names(names) == sum_of(
            names,
            |s: String|
                if forall|i: int| 0 <= i < s@.len() ==> '0' <= #[trigger] s@[i] <= '9' {
                    1
                } else {
                    0
                },
        ),
    decreases names.len(),
{
    if names.len() > 0 {
        law_processes_counted(names.drop_last());
        let s = names.last()@;
        if forall|i: int| 0 <= i < s.len() ==> '0' <= #[trigger] s[i] <= '9' {
            assert(crate::text::all_digits(s));
        }
        if crate::text::all_digits(s) {
            assert forall|i: int| 0 <= i < s.len() implies '0' <= #[trigger] s[i] <= '9' by {
                assert(is_digit(s[i]));
            }
        }
    }
}

/// A pod's UID is what stands behind the first `-pod` in the path, as far as its characters can be
/// of a UID, with dashes for underscores. Fewer than eight characters are none.
pub proof fn law_uid_in_line(
    front: Seq<char>,
    a: Seq<char>,
    uid: Seq<char>,
    rest: Seq<char>,
    i: int,
)
    requires
        forall|k: int| 0 <= k < uid.len() ==> is_uid_char(#[trigger] uid[k]),
        rest.len() > 0 ==> !is_uid_char(rest[0]),
        !(a + "-pod"@ + uid + rest).contains(':'),
        forall|k: int|
            0 <= k < a.len() ==> !#[trigger] occurs_at(a + "-pod"@ + uid + rest, "-pod"@, k),
        0 <= i < uid.len(),
    ensures
        ({
            let line = front.push(':') + (a + "-pod"@ + uid + rest);
            match line_uid(line) {
                Some(u) => {
                    &&& uid.len() >= 8
                    &&& u.len() == uid.len()
                    &&& u[i] == (if uid[i] == '_' {
                        '-'
                    } else {
                        uid[i]
                    })
                },
                None => uid.len() < 8,
            }
        }),
{
    let path = a + "-pod"@ + uid + rest;
    lemma_cgroup_path(front, path);
    assert(a + "-pod"@ + (uid + rest) =~= path);
    lemma_behind_pod(a, uid + rest);
    let tail = uid + rest;
    assert forall|j: int| 0 <= j < uid.len() implies is_uid_char(#[trigger] tail[j]) by {
        assert(tail[j] == uid[j]);
    }
    if rest.len() > 0 {
        assert(tail[uid.len() as int] == rest[0]);
    }
    lemma_uid_len(tail, uid.len() as int);
    assert(tail.take(uid.len() as int) =~= uid);
}

proof fn lemma_cgroup_path(front: Seq<char>, path: Seq<char>)
    requires
        !path.contains(':'),
    ensures
        cgroup_path(front.push(':') + path) == path,
{
    let line = front.push(':') + path;
    law_last_index(line, ':');
    let k = last_index(line, ':');
    assert(line[front.len() as int] == ':');
    assert(line.contains(':'));
    if k > front.len() {
        assert(path[k - front.len() - 1] == ':');
        assert(path.contains(':'));
    }
    assert(line.skip(k + 1) =~= path);
}

proof fn lemma_behind_pod(a: Seq<char>, tail: Seq<char>)
    requires
        forall|k: int| 0 <= k < a.len() ==> !#[trigger] occurs_at(a + "-pod"@ + tail, "-pod"@, k),
    ensures
        find_from(a + "-pod"@ + tail, "-pod"@, 0) == a.len(),
        (a + "-pod"@ + tail).skip(a.len() as int + 4) == tail,
{
    reveal_strlit("-pod");
    let p = "-pod"@;
    let path = a + p + tail;
    let n = a.len() as int;
    law_find_from(path, p, 0);
    assert(path.subrange(n, n + p.len()) =~= p);
    assert(occurs_at(path, p, n));
    assert(path.skip(n + 4) =~= tail);
}

/// The UID of a process is that of the first line that has one.
pub proof fn law_first_uid(lines: Seq<Seq<char>>, from: int)
    requires
        0 <= from <= lines.len(),
    ensures
        forall|k: int|
            from <= k < lines.len() && line_uid(#[trigger] lines[k]) is Some && (forall|i: int|
                from <= i < k ==> line_uid(#[trigger] lines[i]) is None) ==> uid_from(lines, from)
                == line_uid(lines[k]),
        (forall|k: int| from <= k < lines.len() ==> line_uid(#[trigger] lines[k]) is None)
            ==> uid_from(lines, from) is None,
    decreases lines.len() - from,
{
    if from < lines.len() {
        law_first_uid(lines, from + 1);
        assert forall|k: int|
            from <= k < lines.len() && line_uid(#[trigger] lines[k]) is Some && (forall|i: int|
                from <= i < k ==> line_uid(#[trigger] lines[i]) is None) implies uid_from(
            lines,
            from,
        ) == line_uid(lines[k]) by {
            if k > from {
                assert(line_uid(lines[from]) is None);
            }
        }
        if forall|k: int| from <= k < lines.len() ==> line_uid(#[trigger] lines[k]) is None {
            assert(line_uid(lines[from]) is None);
        }
    }
}

/// A node is called what it is configured to be, else what the host is called, else what its file
/// says, else unknown.
pub proof fn law_node_name(n: Seq<char>, h: Option<Seq<char>>, f: Option<Seq<char>>, name: Seq<char>)
    requires
        name.len() > 0,
        !is_space(name[0]),
        !is_space(name.last()),
    ensures
        node_name_of(Some(n), h, f) == n,
        node_name_of(None, Some(n), f) == n,
        node_name_of(None, None, Some(name.push('\n'))) == name,
        node_name_of(None, None, None) == "unknown"@,
{
    let end = seq!['\n'];
    assert(blank(end)) by {
        assert(is_space(end[0]));
    }
    law_trimmed(Seq::empty(), name, end);
    assert(Seq::empty() + name + end =~= name.push('\n'));
}

} // verus!
