//! Plugin metadata and the process-registry row.
//!
//! Metadata is declared by each plugin and validated at discovery: the id
//! holds only ASCII letters, digits and hyphens, the route is a path that
//! begins with `/` and never contains `..`, and the free-text fields are
//! bounded.  A row records what the supervisor knows about one plugin; the
//! child-process handle itself is owned by the embedding runtime, keyed by
//! plugin id, and is mirrored here as the `running` flag and the pid.

use vstd::prelude::*;
use vstd::string::StrSliceExecFns;

verus! {

/// Metadata a plugin declares through its metadata probe.
#[derive(Debug, Clone)]
pub struct PluginMetadata {
    pub id: String,
    pub name: String,
    pub version: String,
    pub author: Option<String>,
    pub icon: String,
    pub route: String,
}

/// Characters allowed in a plugin id: ASCII letters, digits and hyphen.
pub open spec fn valid_id_char(c: char) -> bool {
    ||| 'a' <= c && c <= 'z'
    ||| 'A' <= c && c <= 'Z'
    ||| '0' <= c && c <= '9'
    ||| c == '-'
}

/// A valid plugin id: non-empty, id characters only.
pub open spec fn valid_id(s: Seq<char>) -> bool {
    s.len() > 0 && forall|i: int| 0 <= i < s.len() ==> valid_id_char(#[trigger] s[i])
}

/// Whether `s` contains two consecutive dots.
pub open spec fn contains_dotdot(s: Seq<char>) -> bool {
    exists|i: int| 0 <= i && i + 1 < s.len() && #[trigger] s[i] == '.' && s[i + 1] == '.'
}

/// A valid route: non-empty, begins with `/`, free of `..`.
pub open spec fn valid_route(s: Seq<char>) -> bool {
    s.len() > 0 && s[0] == '/' && !contains_dotdot(s)
}

/// Bound on the free-text metadata fields.
pub const MAX_TEXT_FIELD: usize = 100;

/// A metadata record the supervisor accepts at discovery.
pub open spec fn valid_metadata(m: PluginMetadata) -> bool {
    &&& valid_id(m.id@)
    &&& valid_route(m.route@)
    &&& m.name@.len() <= MAX_TEXT_FIELD
    &&& m.version@.len() <= MAX_TEXT_FIELD
    &&& (m.author matches Some(a) ==> a@.len() <= MAX_TEXT_FIELD)
}

/// Check that every character of `s` is an id character and `s` is
/// non-empty.
pub fn check_valid_id(s: &str) -> (r: bool)
    ensures
        r == valid_id(s@),
{
    let n = s.unicode_len();
    if n == 0 {
        return false;
    }
    let mut i: usize = 0;
    while i < n
        invariant
            i <= n,
            n == s@.len(),
            forall|j: int| 0 <= j < i ==> valid_id_char(#[trigger] s@[j]),
        decreases n - i,
    {
        let c = s.get_char(i);
        let v = c as u32;
        let ok = (97 <= v && v <= 122) || (65 <= v && v <= 90) || (48 <= v && v <= 57) || v == 45;
        if !ok {
            proof {
                assert(!valid_id_char(s@[i as int]));
            }
            return false;
        }
        proof {
            assert(valid_id_char(s@[i as int]));
        }
        i = i + 1;
    }
    true
}

/// Check for two consecutive dots.
pub fn check_contains_dotdot(s: &str) -> (r: bool)
    ensures
        r == contains_dotdot(s@),
{
    let n = s.unicode_len();
    if n < 2 {
        return false;
    }
    let mut i: usize = 0;
    while i < n - 1
        invariant
            i <= n,
            n == s@.len(),
            n >= 2,
            forall|j: int| 0 <= j < i ==> !(#[trigger] s@[j] == '.' && s@[j + 1] == '.'),
        decreases n - i,
    {
        let a = s.get_char(i);
        let b = s.get_char(i + 1);
        if a == '.' && b == '.' {
            return true;
        }
        i = i + 1;
    }
    false
}

/// Check that `s` is a valid route.
pub fn check_valid_route(s: &str) -> (r: bool)
    ensures
        r == valid_route(s@),
{
    let n = s.unicode_len();
    if n == 0 {
        return false;
    }
    if s.get_char(0) != '/' {
        return false;
    }
    !check_contains_dotdot(s)
}

/// Validate a metadata record as the discovery scan does: id charset,
/// route shape, bounded text fields.  An id with `/` in it, in particular,
/// is rejected here.
pub fn validate_metadata(m: &PluginMetadata) -> (r: bool)
    ensures
        r == valid_metadata(*m),
{
    if !check_valid_id(m.id.as_str()) {
        return false;
    }
    if !check_valid_route(m.route.as_str()) {
        return false;
    }
    if m.name.as_str().unicode_len() > MAX_TEXT_FIELD {
        return false;
    }
    if m.version.as_str().unicode_len() > MAX_TEXT_FIELD {
        return false;
    }
    match &m.author {
        None => true,
        Some(a) => a.as_str().unicode_len() <= MAX_TEXT_FIELD,
    }
}

/// Whether a directory entry's file name carries the plugin-binary
/// marker extension.
pub open spec fn spec_has_plugin_extension(s: Seq<char>) -> bool {
    s.len() >= 7 && s.skip(s.len() - 7) == ".binary"@
}

/// Check a file name for the plugin-binary marker extension.
pub fn has_plugin_extension(name: &str) -> (r: bool)
    ensures
        r == spec_has_plugin_extension(name@),
{
    proof {
        reveal_strlit(".binary");
    }
    let n = name.unicode_len();
    if n < 7 {
        return false;
    }
    let tail = name.substring_char(n - 7, n);
    let ghost suffix = name@.skip(name@.len() - 7);
    proof {
        assert(tail@ =~= suffix);
    }
    let ok = tail.get_char(0) == '.' && tail.get_char(1) == 'b' && tail.get_char(2) == 'i'
        && tail.get_char(3) == 'n' && tail.get_char(4) == 'a' && tail.get_char(5) == 'r'
        && tail.get_char(6) == 'y';
    proof {
        if ok {
            assert(suffix =~= ".binary"@);
        } else {
            assert(suffix != ".binary"@);
        }
    }
    ok
}

impl PluginMetadata {
    /// Field-for-field copy, equal to the original.
    pub fn duplicate(&self) -> (r: PluginMetadata)
        ensures
            r == *self,
    {
        let r = PluginMetadata {
            id: self.id.clone(),
            name: self.name.clone(),
            version: self.version.clone(),
            author: match &self.author {
                Some(a) => Some(a.clone()),
                None => None,
            },
            icon: self.icon.clone(),
            route: self.route.clone(),
        };
        r
    }
}

/// A valid id never contains `/`.
pub proof fn lemma_valid_id_no_slash(s: Seq<char>)
    requires
        valid_id(s),
    ensures
        forall|i: int| 0 <= i < s.len() ==> #[trigger] s[i] != '/',
{
    assert forall|i: int| 0 <= i < s.len() implies #[trigger] s[i] != '/' by {
        assert(valid_id_char(s[i]));
    }
}

/// One process-registry row.
#[derive(Debug, Clone)]
pub struct PluginProcess {
    pub id: String,
    pub running: bool,
    pub pid: Option<u32>,
    pub socket_path: String,
    pub enabled: bool,
    pub metadata: Option<PluginMetadata>,
}

/// Status of a plugin as reported over the administrative interface.
#[derive(Debug, Clone)]
pub struct PluginStatus {
    pub id: String,
    pub name: String,
    pub version: String,
    pub author: Option<String>,
    pub icon: String,
    pub enabled: bool,
    pub running: bool,
    pub health: String,
    pub pid: Option<u32>,
    pub socket_path: Option<String>,
}

/// The health word for a row: `disabled` when not enabled, `healthy` when
/// enabled with a live process and a present socket, else `unhealthy`.
pub open spec fn spec_health(enabled: bool, running: bool, socket_exists: bool) -> Seq<char> {
    if !enabled {
        "disabled"@
    } else if running && socket_exists {
        "healthy"@
    } else {
        "unhealthy"@
    }
}

impl PluginStatus {
    /// Derive the reported status from a registry row.  Whether the socket
    /// file exists is probed by the embedding runtime and passed in.
    pub fn from_process(p: &PluginProcess, socket_exists: bool) -> (r: PluginStatus)
        ensures
            r.id@ == p.id@,
            r.enabled == p.enabled,
            r.running == p.running,
            r.pid == p.pid,
            r.health@ == spec_health(p.enabled, p.running, socket_exists),
            (match p.metadata {
                Some(m) => r.name@ == m.name@ && r.version@ == m.version@ && r.icon@ == m.icon@
                    && (match (r.author, m.author) {
                    (Some(a), Some(ma)) => a@ == ma@,
                    (None, None) => true,
                    _ => false,
                }),
                None => r.name@ == p.id@ && r.version@ == "unknown"@ && r.icon@.len() == 0
                    && r.author is None,
            }),
            (p.socket_path@.len() == 0 ==> r.socket_path is None),
            (p.socket_path@.len() > 0 ==> (r.socket_path matches Some(sp) && sp@
                == p.socket_path@)),
    {
        let health: String = if !p.enabled {
            String::from_str("disabled")
        } else if p.running && socket_exists {
            String::from_str("healthy")
        } else {
            String::from_str("unhealthy")
        };
        let (name, version, icon, author) = match &p.metadata {
            Some(m) => (m.name.clone(), m.version.clone(), m.icon.clone(), match &m.author {
                Some(a) => Some(a.clone()),
                None => None,
            }),
            None => (p.id.clone(), String::from_str("unknown"), String::new(), None),
        };
        let socket_path = if p.socket_path.as_str().is_empty() {
            None
        } else {
            Some(p.socket_path.clone())
        };
        PluginStatus {
            id: p.id.clone(),
            name,
            version,
            author,
            icon,
            enabled: p.enabled,
            running: p.running,
            health,
            pid: p.pid,
            socket_path,
        }
    }
}

} // verus!
