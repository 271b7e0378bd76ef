//! Structured logging: severity levels, log entries, and the read path's
//! filtering and pagination.  Entries are written one per line by the
//! embedding runtime; reading returns them newest first, filtered by a
//! minimum severity, in fixed-size pages.

use vstd::prelude::*;
use vstd::string::StrSliceExecFns;

verus! {

/// Severity level of a log line.
#[derive(Debug, Clone, PartialEq, Eq, Structural)]
pub enum LogLevel {
    Trace,
    Debug,
    Info,
    Warn,
    Error,
}

/// ASCII-lowercased code point of a character.
pub open spec fn lower_code(c: char) -> int {
    if 65 <= c as int && c as int <= 90 {
        c as int + 32
    } else {
        c as int
    }
}

/// Whether two strings agree up to ASCII case.
pub open spec fn eq_ignore_ascii(a: Seq<char>, b: Seq<char>) -> bool {
    a.len() == b.len() && forall|i: int|
        0 <= i < a.len() ==> lower_code(#[trigger] a[i]) == lower_code(b[i])
}

/// The level named by `s`, compared case-insensitively; `None` for any
/// other word.
pub open spec fn spec_parse_level(s: Seq<char>) -> Option<LogLevel> {
    if eq_ignore_ascii(s, "trace"@) {
        Some(LogLevel::Trace)
    } else if eq_ignore_ascii(s, "debug"@) {
        Some(LogLevel::Debug)
    } else if eq_ignore_ascii(s, "info"@) {
        Some(LogLevel::Info)
    } else if eq_ignore_ascii(s, "warn"@) {
        Some(LogLevel::Warn)
    } else if eq_ignore_ascii(s, "error"@) {
        Some(LogLevel::Error)
    } else {
        None
    }
}

/// Compare two strings ignoring ASCII case.
pub fn eq_ignore_case(s: &str, t: &str) -> (r: bool)
    ensures
        r == eq_ignore_ascii(s@, t@),
{
    let n = s.unicode_len();
    let m = t.unicode_len();
    if n != m {
        return false;
    }
    let mut i: usize = 0;
    while i < n
        invariant
            i <= n,
            n == s@.len(),
            n == t@.len(),
            forall|j: int| 0 <= j < i ==> lower_code(#[trigger] s@[j]) == lower_code(t@[j]),
        decreases n - i,
    {
        let a = s.get_char(i) as u32;
        let b = t.get_char(i) as u32;
        let la = if 65 <= a && a <= 90 {
            a + 32
        } else {
            a
        };
        let lb = if 65 <= b && b <= 90 {
            b + 32
        } else {
            b
        };
        if la != lb {
            return false;
        }
        i = i + 1;
    }
    true
}

impl LogLevel {
    /// Parse a level word, ignoring ASCII case.
    pub fn parse_level(level: &str) -> (r: Option<LogLevel>)
        ensures
            r == spec_parse_level(level@),
    {
        if eq_ignore_case(level, "trace") {
            Some(LogLevel::Trace)
        } else if eq_ignore_case(level, "debug") {
            Some(LogLevel::Debug)
        } else if eq_ignore_case(level, "info") {
            Some(LogLevel::Info)
        } else if eq_ignore_case(level, "warn") {
            Some(LogLevel::Warn)
        } else if eq_ignore_case(level, "error") {
            Some(LogLevel::Error)
        } else {
            None
        }
    }

    /// Numeric severity used for filtering; higher values are more severe.
    pub fn severity(&self) -> (s: u8)
        ensures
            s == self.spec_severity(),
    {
        match self {
            LogLevel::Trace => 0,
            LogLevel::Debug => 1,
            LogLevel::Info => 2,
            LogLevel::Warn => 3,
            LogLevel::Error => 4,
        }
    }

    /// Severity as a specification-level value.
    pub open spec fn spec_severity(&self) -> u8 {
        match self {
            LogLevel::Trace => 0,
            LogLevel::Debug => 1,
            LogLevel::Info => 2,
            LogLevel::Warn => 3,
            LogLevel::Error => 4,
        }
    }

    /// The level's display word, capitalized as it is stored in entries.
    pub open spec fn spec_name(&self) -> Seq<char> {
        match self {
            LogLevel::Trace => "Trace"@,
            LogLevel::Debug => "Debug"@,
            LogLevel::Info => "Info"@,
            LogLevel::Warn => "Warn"@,
            LogLevel::Error => "Error"@,
        }
    }

    /// The level's display word.
    pub fn name(&self) -> (r: &'static str)
        ensures
            r@ == self.spec_name(),
    {
        match self {
            LogLevel::Trace => "Trace",
            LogLevel::Debug => "Debug",
            LogLevel::Info => "Info",
            LogLevel::Warn => "Warn",
            LogLevel::Error => "Error",
        }
    }
}

/// One structured log line.
#[derive(Debug, Clone)]
pub struct LogEntry {
    pub timestamp: String,
    pub level: String,
    pub message: String,
    pub plugin: Option<String>,
    pub error: Option<String>,
    pub pid: Option<u32>,
}

/// Relies on chrono's `Utc::now` and `DateTime::to_rfc3339`, for the
/// current time as an RFC 3339 timestamp.  The value depends on the
/// clock, so nothing is assumed about it.
#[verifier::external_body]
pub(crate) fn now_rfc3339() -> (r: String) {
    chrono::Utc::now().to_rfc3339()
}

impl LogEntry {
    /// Create an entry stamped with the current time, carrying the
    /// level's display word and the message, and nothing else.
    pub fn new(level: LogLevel, message: &str) -> (r: LogEntry)
        ensures
            r.level@ == level.spec_name(),
            r.message@ == message@,
            r.plugin is None,
            r.error is None,
            r.pid is None,
    {
        LogEntry {
            timestamp: now_rfc3339(),
            level: String::from_str(level.name()),
            message: String::from_str(message),
            plugin: None,
            error: None,
            pid: None,
        }
    }

    /// Tag the entry with a plugin id.
    pub fn with_plugin(self, plugin_id: &str) -> (r: LogEntry)
        ensures
            r == (LogEntry { plugin: Some(r.plugin->Some_0), ..self }),
            r.plugin matches Some(p) && p@ == plugin_id@,
    {
        LogEntry { plugin: Some(String::from_str(plugin_id)), ..self }
    }

    /// Attach error details to the entry.
    pub fn with_error(self, error: &str) -> (r: LogEntry)
        ensures
            r == (LogEntry { error: Some(r.error->Some_0), ..self }),
            r.error matches Some(e) && e@ == error@,
    {
        LogEntry { error: Some(String::from_str(error)), ..self }
    }

    /// Attach a process id to the entry.
    pub fn with_pid(self, pid: u32) -> (r: LogEntry)
        ensures
            r == (LogEntry { pid: Some(pid), ..self }),
    {
        LogEntry { pid: Some(pid), ..self }
    }
}

/// Whether an entry passes a minimum-severity filter: no filter keeps
/// everything; with one, the entry's level word must parse and be at least
/// as severe.
pub open spec fn entry_passes(e: LogEntry, f: Option<LogLevel>) -> bool {
    match f {
        None => true,
        Some(min) => match spec_parse_level(e.level@) {
            Some(l) => l.spec_severity() >= min.spec_severity(),
            None => false,
        },
    }
}

/// The entries that pass the filter, in order.
pub open spec fn spec_filtered(s: Seq<LogEntry>, f: Option<LogLevel>) -> Seq<LogEntry>
    decreases s.len(),
{
    if s.len() == 0 {
        Seq::empty()
    } else if entry_passes(s[0], f) {
        seq![s[0]] + spec_filtered(s.drop_first(), f)
    } else {
        spec_filtered(s.drop_first(), f)
    }
}

proof fn lemma_filtered_snoc(s: Seq<LogEntry>, e: LogEntry, f: Option<LogLevel>)
    ensures
        spec_filtered(s.push(e), f) == if entry_passes(e, f) {
            spec_filtered(s, f).push(e)
        } else {
            spec_filtered(s, f)
        },
    decreases s.len(),
{
    if s.len() == 0 {
        assert(s.push(e)[0] == e);
        assert(s.push(e).drop_first() =~= Seq::<LogEntry>::empty());
        assert(spec_filtered(Seq::<LogEntry>::empty(), f) == Seq::<LogEntry>::empty());
        if entry_passes(e, f) {
            assert(seq![e] + Seq::<LogEntry>::empty() =~= spec_filtered(s, f).push(e));
        }
    } else {
        assert(s.push(e)[0] == s[0]);
        assert(s.push(e).drop_first() =~= s.drop_first().push(e));
        lemma_filtered_snoc(s.drop_first(), e, f);
        if entry_passes(s[0], f) {
            assert(spec_filtered(s.push(e), f) == seq![s[0]] + spec_filtered(
                s.drop_first().push(e),
                f,
            ));
            assert(spec_filtered(s, f) == seq![s[0]] + spec_filtered(s.drop_first(), f));
            if entry_passes(e, f) {
                assert(seq![s[0]] + spec_filtered(s.drop_first(), f).push(e) =~= (seq![s[0]]
                    + spec_filtered(s.drop_first(), f)).push(e));
            }
        } else {
            assert(spec_filtered(s.push(e), f) == spec_filtered(s.drop_first().push(e), f));
            assert(spec_filtered(s, f) == spec_filtered(s.drop_first(), f));
        }
    }
}

/// One page of a sequence: entries `page * page_size` up to the next page
/// boundary, empty past the end.
pub open spec fn spec_page(s: Seq<LogEntry>, page: nat, page_size: nat) -> Seq<LogEntry> {
    let start = page * page_size;
    if start >= s.len() {
        Seq::empty()
    } else if start + page_size <= s.len() {
        s.subrange(start as int, (start + page_size) as int)
    } else {
        s.subrange(start as int, s.len() as int)
    }
}

/// The read path of the per-plugin log: keep the entries at or above the
/// requested severity, newest first, and return the requested page.
pub fn filter_plugin_logs(
    entries: &Vec<LogEntry>,
    filter_level: Option<LogLevel>,
    page: usize,
    page_size: usize,
) -> (r: Vec<LogEntry>)
    ensures
        r@ == spec_page(
            spec_filtered(entries@, filter_level).reverse(),
            page as nat,
            page_size as nat,
        ),
{
    let mut kept: Vec<LogEntry> = Vec::new();
    proof {
        assert(entries@.take(0) =~= Seq::<LogEntry>::empty());
    }
    let mut i: usize = 0;
    while i < entries.len()
        invariant
            i <= entries@.len(),
            kept@ == spec_filtered(entries@.take(i as int), filter_level),
        decreases entries@.len() - i,
    {
        let e = &entries[i];
        let keep = match &filter_level {
            None => true,
            Some(min) => {
                match LogLevel::parse_level(e.level.as_str()) {
                    Some(l) => l.severity() >= min.severity(),
                    None => false,
                }
            },
        };
        if keep {
            kept.push(
                LogEntry {
                    timestamp: e.timestamp.clone(),
                    level: e.level.clone(),
                    message: e.message.clone(),
                    plugin: match &e.plugin {
                        Some(p) => Some(p.clone()),
                        None => None,
                    },
                    error: match &e.error {
                        Some(x) => Some(x.clone()),
                        None => None,
                    },
                    pid: e.pid,
                },
            );
        }
        proof {
            assert(entries@.take(i + 1) =~= entries@.take(i as int).push(entries@[i as int]));
            lemma_filtered_snoc(entries@.take(i as int), entries@[i as int], filter_level);
        }
        i = i + 1;
    }
    proof {
        assert(entries@.take(entries@.len() as int) =~= entries@);
    }
    let mut newest_first: Vec<LogEntry> = Vec::new();
    let ghost keptv = kept@;
    let mut j: usize = kept.len();
    while j > 0
        invariant
            j <= keptv.len(),
            kept@ == keptv,
            newest_first@ =~= keptv.subrange(j as int, keptv.len() as int).reverse(),
        decreases j,
    {
        j = j - 1;
        let e = &kept[j];
        newest_first.push(
            LogEntry {
                timestamp: e.timestamp.clone(),
                level: e.level.clone(),
                message: e.message.clone(),
                plugin: match &e.plugin {
                    Some(p) => Some(p.clone()),
                    None => None,
                },
                error: match &e.error {
                    Some(x) => Some(x.clone()),
                    None => None,
                },
                pid: e.pid,
            },
        );
        proof {
            assert(newest_first@ =~= keptv.subrange(j as int, keptv.len() as int).reverse());
        }
    }
    proof {
        assert(keptv.subrange(0, keptv.len() as int) =~= keptv);
        assert(newest_first@ == keptv.reverse());
    }
    let ghost rev = newest_first@;
    let total = newest_first.len();
    if page_size == 0 {
        proof {
            assert(spec_page(rev, page as nat, 0) =~= Seq::<LogEntry>::empty());
        }
        return Vec::new();
    }
    if page > total / page_size {
        proof {
            assert(page as nat * page_size as nat >= rev.len()) by (nonlinear_arith)
                requires
                    page as nat > rev.len() as nat / page_size as nat,
                    page_size as nat > 0,
            ;
        }
        return Vec::new();
    }
    proof {
        assert(page as int * page_size as int <= total as int) by (nonlinear_arith)
            requires
                page as int <= total as int / page_size as int,
                page_size as int > 0,
                total as int >= 0,
        ;
    }
    let start = page * page_size;
    proof {
        assert(start as nat == page as nat * page_size as nat);
    }
    if start >= total {
        return Vec::new();
    }
    let stop = if total - start >= page_size {
        start + page_size
    } else {
        total
    };
    let mut out: Vec<LogEntry> = Vec::new();
    let mut k = start;
    while k < stop
        invariant
            start <= k <= stop <= rev.len(),
            newest_first@ == rev,
            out@ == rev.subrange(start as int, k as int),
        decreases stop - k,
    {
        let e = &newest_first[k];
        out.push(
            LogEntry {
                timestamp: e.timestamp.clone(),
                level: e.level.clone(),
                message: e.message.clone(),
                plugin: match &e.plugin {
                    Some(p) => Some(p.clone()),
                    None => None,
                },
                error: match &e.error {
                    Some(x) => Some(x.clone()),
                    None => None,
                },
                pid: e.pid,
            },
        );
        proof {
            assert(rev.subrange(start as int, k + 1) =~= rev.subrange(start as int, k as int).push(
                rev[k as int],
            ));
        }
        k = k + 1;
    }
    proof {
        assert(out@ =~= spec_page(rev, page as nat, page_size as nat));
    }
    out
}

/// The per-plugin log file path: `<log_dir>/plugins/<id>.log`.
pub fn plugin_log_path(log_dir: &str, plugin_id: &str) -> (r: String)
    ensures
        r@ == log_dir@ + "/plugins/"@ + plugin_id@ + ".log"@,
{
    let mut out = String::from_str(log_dir);
    out.append("/plugins/");
    out.append(plugin_id);
    out.append(".log");
    proof {
        assert(out@ =~= log_dir@ + "/plugins/"@ + plugin_id@ + ".log"@);
    }
    out
}

/// The supervisor log path: `<log_dir>/plugin-supervisor.log`.
pub fn supervisor_log_path(log_dir: &str) -> (r: String)
    ensures
        r@ == log_dir@ + "/plugin-supervisor.log"@,
{
    let mut out = String::from_str(log_dir);
    out.append("/plugin-supervisor.log");
    out
}

/// The supervisor-log line for a lifecycle event: `Plugin <id>: <event>`,
/// with ` - <details>` appended when details are present.
pub fn supervisor_log_message(plugin_id: &str, event: &str, details: Option<&str>) -> (r: String)
    ensures
        r@ == "Plugin "@ + plugin_id@ + ": "@ + event@ + (match details {
            None => Seq::<char>::empty(),
            Some(d) => " - "@ + d@,
        }),
{
    let mut out = String::from_str("Plugin ");
    out.append(plugin_id);
    out.append(": ");
    out.append(event);
    match details {
        None => {
            proof {
                assert(out@ =~= "Plugin "@ + plugin_id@ + ": "@ + event@
                    + Seq::<char>::empty());
            }
        },
        Some(d) => {
            out.append(" - ");
            out.append(d);
            proof {
                assert(out@ =~= "Plugin "@ + plugin_id@ + ": "@ + event@ + (" - "@ + d@));
            }
        },
    }
    out
}

/// Whether the log file must rotate before the next write.
pub fn needs_rotation(file_size: u64, max_file_size: u64) -> (r: bool)
    ensures
        r == (file_size >= max_file_size),
{
    file_size >= max_file_size
}

/// Log configuration: rotation threshold, how many rotated files to keep,
/// and the base directory path.
#[derive(Debug, Clone)]
pub struct LogConfig {
    pub max_file_size: u64,
    pub max_rotated_files: usize,
    pub log_dir: String,
}

impl Default for LogConfig {
    /// The default configuration: rotate at 10 MiB, keep five rotated
    /// files, under `/var/log/toru`.
    fn default() -> (r: LogConfig)
        ensures
            r.max_file_size == 10485760,
            r.max_rotated_files == 5,
            r.log_dir@ == "/var/log/toru"@,
    {
        LogConfig {
            max_file_size: 10 * 1024 * 1024,
            max_rotated_files: 5,
            log_dir: String::from_str("/var/log/toru"),
        }
    }
}

/// Whether some element of `s` equals `j`.
pub open spec fn has_index(s: Seq<usize>, j: int) -> bool {
    exists|a: int| 0 <= a < s.len() && #[trigger] s[a] == j
}

/// Which rotated files to delete: given each file's modification time,
/// the indices of all but the `keep` newest, oldest first by
/// modification time.  Ties may go either way.
pub fn rotation_victims(mtimes: &Vec<u64>, keep: usize) -> (r: Vec<usize>)
    ensures
        mtimes@.len() <= keep ==> r@.len() == 0,
        mtimes@.len() > keep ==> r@.len() == mtimes@.len() - keep,
        forall|a: int| 0 <= a < r@.len() ==> (#[trigger] r@[a]) < mtimes@.len(),
        forall|a: int, b: int| 0 <= a < b < r@.len() ==> r@[a] != r@[b],
        forall|a: int, j: int|
            0 <= a < r@.len() && 0 <= j < mtimes@.len() && !has_index(r@, j) ==> mtimes@[(
            #[trigger] r@[a]) as int] <= #[trigger] mtimes@[j],
{
    let n = mtimes.len();
    if n <= keep {
        return Vec::new();
    }
    let goal = n - keep;
    let mut picked: Vec<usize> = Vec::new();
    while picked.len() < goal
        invariant
            n == mtimes@.len(),
            n > keep,
            goal == mtimes@.len() - keep,
            mtimes@.len() > keep,
            picked@.len() <= goal,
            forall|a: int| 0 <= a < picked@.len() ==> (#[trigger] picked@[a]) < mtimes@.len(),
            forall|a: int, b: int| 0 <= a < b < picked@.len() ==> picked@[a] != picked@[b],
            forall|a: int, j: int|
                0 <= a < picked@.len() && 0 <= j < mtimes@.len() && !has_index(picked@, j)
                    ==> mtimes@[(#[trigger] picked@[a]) as int] <= #[trigger] mtimes@[j],
        decreases goal - picked@.len(),
    {
        let mut best: usize = n;
        let mut k: usize = 0;
        while k < n
            invariant
                k <= n,
                n == mtimes@.len(),
                n > 0,
                best <= n,
                best < n ==> !has_index(picked@, best as int),
                best < n ==> forall|j: int|
                    0 <= j < k && !has_index(picked@, j) ==> mtimes@[best as int]
                        <= #[trigger] mtimes@[j],
                best == n ==> forall|j: int| 0 <= j < k ==> has_index(picked@, j),
            decreases n - k,
        {
            if !contains_index(&picked, k) {
                if best == n {
                    best = k;
                } else if mtimes[k] < mtimes[best] {
                    best = k;
                }
            }
            k = k + 1;
        }
        if best == n {
            proof {
                lemma_distinct_in_range(picked@, mtimes@.len() as int);
            }
            return picked;
        }
        let ghost p0 = picked@;
        picked.push(best);
        proof {
            assert(p0 =~= picked@.drop_last());
            assert(forall|a: int| 0 <= a < p0.len() ==> #[trigger] picked@[a] == p0[a]);
            assert(picked@[picked@.len() - 1] == best);
            assert forall|a: int, j: int|
                0 <= a < picked@.len() && 0 <= j < mtimes@.len() && !has_index(picked@, j) implies
                mtimes@[(#[trigger] picked@[a]) as int] <= #[trigger] mtimes@[j] by {
                assert(!has_index(p0, j)) by {
                    assert(forall|b: int| 0 <= b < p0.len() ==> #[trigger] p0[b] == picked@[b]);
                }
                if a < picked@.len() - 1 {
                    assert(picked@[a] == p0[a]);
                } else {
                    assert(picked@[a] == best);
                }
            }
        }
    }
    picked
}

fn contains_index(v: &Vec<usize>, x: usize) -> (r: bool)
    ensures
        r == has_index(v@, x as int),
{
    let mut i: usize = 0;
    while i < v.len()
        invariant
            i <= v@.len(),
            forall|j: int| 0 <= j < i ==> (#[trigger] v@[j]) != x as int,
        decreases v@.len() - i,
    {
        if v[i] == x {
            proof {
                assert(v@[i as int] == x as int);
            }
            return true;
        }
        i = i + 1;
    }
    proof {
        assert(!has_index(v@, x as int));
    }
    false
}

proof fn lemma_distinct_in_range(s: Seq<usize>, n: int)
    requires
        n >= 0,
        forall|a: int| 0 <= a < s.len() ==> 0 <= #[trigger] s[a] < n,
        forall|a: int, b: int| 0 <= a < b < s.len() ==> s[a] != s[b],
        forall|j: int| 0 <= j < n ==> has_index(s, j),
    ensures
        s.len() >= n,
    decreases n,
{
    if n > 0 {
        let v = n - 1;
        assert(has_index(s, v));
        let idx = choose|idx: int| 0 <= idx < s.len() && s[idx] == v;
        let t = s.remove(idx);
        assert(forall|a: int, b: int| 0 <= a < b < t.len() ==> t[a] != t[b]) by {
            assert(forall|a: int|
                0 <= a < t.len() ==> #[trigger] t[a] == (if a < idx {
                    s[a]
                } else {
                    s[a + 1]
                }));
        }
        assert(forall|a: int| 0 <= a < t.len() ==> 0 <= #[trigger] t[a] < n - 1) by {
            assert(forall|a: int|
                0 <= a < t.len() ==> #[trigger] t[a] == (if a < idx {
                    s[a]
                } else {
                    s[a + 1]
                }));
            assert forall|a: int| 0 <= a < t.len() implies 0 <= #[trigger] t[a] < n - 1 by {
                if a < idx {
                    assert(t[a] == s[a]);
                    assert(s[a] != v);
                } else {
                    assert(t[a] == s[a + 1]);
                    assert(s[a + 1] != v);
                }
            }
        }
        assert forall|j: int| 0 <= j < n - 1 implies has_index(t, j) by {
            assert(has_index(s, j));
            let w = choose|w: int| 0 <= w < s.len() && s[w] == j;
            assert(w != idx);
            if w < idx {
                assert(t[w] == s[w]);
            } else {
                assert(t[w - 1] == s[w]);
            }
        }
        lemma_distinct_in_range(t, n - 1);
    }
}

} // verus!
