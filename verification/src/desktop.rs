//! The desktop launcher: whether the process was launched as the macOS app
//! bundle, which local dashboard answering the health check may be reused,
//! which one is an older desktop-owned server to upgrade, and the
//! environment a login shell reported. Probing, spawning and stopping
//! processes is I/O.

use vstd::prelude::*;

use crate::text::{chars_of, owned, push_char, push_str, str_eq, views};

verus! {

/// The version of this build.
pub const PACKAGE_VERSION: &'static str = "0.1.97";

/// The service name a dashboard reports.
pub const SERVICE: &'static str = "openresearch";

/// What the dashboard's health endpoint answered.
pub struct HealthResponse {
    pub ok: bool,
    pub version: Option<String>,
    pub service: Option<String>,
    pub pid: Option<u32>,
    pub desktop_instance_id: Option<String>,
}

/// The server a desktop launch started, as recorded for later launches.
pub struct DesktopProcess {
    pub pid: u32,
    pub version: String,
    pub instance_id: String,
}

/// An optional string equals `s`.
pub open spec fn is_text(o: Option<String>, s: Seq<char>) -> bool {
    o matches Some(x) && x@ == s
}

fn opt_is(o: &Option<String>, s: &str) -> (r: bool)
    ensures
        r == is_text(*o, s@),
{
    match o {
        Some(x) => str_eq(x.as_str(), s),
        None => false,
    }
}

/// An answer that comes from an OpenResearch dashboard: healthy, and naming
/// the service or (for older servers) at least a version.
pub open spec fn health_accepted_spec(h: HealthResponse) -> bool {
    h.ok && (is_text(h.service, SERVICE@) || h.version is Some)
}

/// Whether a parsed health answer comes from an OpenResearch dashboard.
pub fn health_accepted(h: &HealthResponse) -> (r: bool)
    ensures
        r == health_accepted_spec(*h),
{
    h.ok && (opt_is(&h.service, SERVICE) || h.version.is_some())
}

/// The dashboard that answered is the very server this launch spawned: this
/// build's version, the spawned pid and the launch's instance id.
pub open spec fn matches_process_spec(h: HealthResponse, pid: u32, instance_id: Seq<char>) -> bool {
    &&& is_text(h.service, SERVICE@)
    &&& is_text(h.version, PACKAGE_VERSION@)
    &&& h.pid == Some(pid)
    &&& is_text(h.desktop_instance_id, instance_id)
}

/// Whether readiness can be attributed to the process this launch spawned.
pub fn health_matches_process(h: &HealthResponse, pid: u32, instance_id: &str) -> (r: bool)
    ensures
        r == matches_process_spec(*h, pid, instance_id@),
{
    opt_is(&h.service, SERVICE) && opt_is(&h.version, PACKAGE_VERSION) && h.pid == Some(pid)
        && opt_is(&h.desktop_instance_id, instance_id)
}

/// Whether a text parses as a `semver::Version`.
pub uninterp spec fn semver_valid(s: Seq<char>) -> bool;

/// Whether version `a` is greater than `b` in the order `semver::Version`
/// derives (major, minor, patch, pre-release, then build metadata).
pub uninterp spec fn semver_newer(a: Seq<char>, b: Seq<char>) -> bool;

/// Calls `semver::Version::parse` on both texts and compares the versions
/// with `>`: `None` unless both parse.
#[verifier::external_body]
fn compare_versions(a: &str, b: &str) -> (r: Option<bool>)
    ensures
        match r {
            Some(g) => semver_valid(a@) && semver_valid(b@) && g == semver_newer(a@, b@),
            None => !(semver_valid(a@) && semver_valid(b@)),
        },
{
    match (semver::Version::parse(a), semver::Version::parse(b)) {
        (Ok(x), Ok(y)) => Some(x > y),
        _ => None,
    }
}

/// The running server is an older desktop-owned dashboard: this build is
/// newer than the version it reports, and service, pid, version and instance
/// id all match what the desktop launch that started it recorded.
pub open spec fn upgrade_target(h: HealthResponse, state: DesktopProcess) -> bool {
    &&& semver_valid(PACKAGE_VERSION@)
    &&& h.version matches Some(v) && semver_valid(v@) && semver_newer(PACKAGE_VERSION@, v@)
    &&& is_text(h.service, SERVICE@)
    &&& h.pid == Some(state.pid)
    &&& is_text(h.version, state.version@)
    &&& is_text(h.desktop_instance_id, state.instance_id@)
}

/// The pid to stop before starting a newer dashboard, if the running one is
/// an older server this launcher's kind started.
pub fn matching_upgrade_pid(h: &HealthResponse, state: &DesktopProcess) -> (r: Option<u32>)
    ensures
        r is Some <==> upgrade_target(*h, *state),
        r matches Some(p) ==> p == state.pid,
{
    let running = match &h.version {
        Some(v) => v,
        None => {
            return None;
        },
    };
    let newer = match compare_versions(PACKAGE_VERSION, running.as_str()) {
        Some(g) => g,
        None => {
            return None;
        },
    };
    if newer && opt_is(&h.service, SERVICE) && h.pid == Some(state.pid) && str_eq(
        running.as_str(),
        state.version.as_str(),
    ) && opt_is(&h.desktop_instance_id, state.instance_id.as_str()) {
        Some(state.pid)
    } else {
        None
    }
}

// ---------------------------------------------------------------------------
// The environment a login shell printed
// ---------------------------------------------------------------------------

/// The marker the probe prints before `env -0`, after the shell's own
/// startup output.
pub open spec fn env_marker() -> Seq<u8> {
    seq![95u8, 95, 79, 82, 88, 95, 68, 69, 83, 75, 84, 79, 80, 95, 69, 78, 86, 95, 95]
}

/// The pieces of `s` between zero bytes, read from the left: the pieces
/// completed so far and the one in progress.
pub open spec fn zero_scan(s: Seq<u8>) -> (Seq<Seq<u8>>, Seq<u8>)
    decreases s.len(),
{
    if s.len() == 0 {
        (Seq::empty(), Seq::empty())
    } else {
        let (done, cur) = zero_scan(s.drop_last());
        if s.last() == 0 {
            (done.push(cur), Seq::empty())
        } else {
            (done, cur.push(s.last()))
        }
    }
}

/// `split` at zero bytes: every piece, the last one included even when empty.
pub open spec fn zero_split(s: Seq<u8>) -> Seq<Seq<u8>> {
    zero_scan(s).0.push(zero_scan(s).1)
}

/// The index of the first byte `b` in `e`.
pub open spec fn first_eq(e: Seq<u8>) -> Option<int> {
    if exists|i: int| 0 <= i < e.len() && e[i] == 61 {
        Some(choose|i: int| 0 <= i < e.len() && e[i] == 61 && forall|j: int| 0 <= j < i ==> e[j] != 61)
    } else {
        None
    }
}

/// An `env -0` entry as a variable: split at its first `=`, the name
/// non-empty.
pub open spec fn entry_var(e: Seq<u8>) -> Option<(Seq<u8>, Seq<u8>)> {
    match first_eq(e) {
        Some(i) => if i > 0 {
            Some((e.take(i), e.skip(i + 1)))
        } else {
            None
        },
        None => None,
    }
}

/// The variables of the entries, in order, skipping the ones that are not
/// `NAME=value`.
pub open spec fn entries_vars(entries: Seq<Seq<u8>>) -> Seq<(Seq<u8>, Seq<u8>)>
    decreases entries.len(),
{
    if entries.len() == 0 {
        Seq::empty()
    } else {
        entries_vars(entries.drop_last()) + match entry_var(entries.last()) {
            Some(v) => seq![v],
            None => Seq::empty(),
        }
    }
}

/// The variables after the marker entry; none when the marker never came.
pub open spec fn shell_environment(output: Seq<u8>) -> Seq<(Seq<u8>, Seq<u8>)> {
    let pieces = zero_split(output);
    if exists|m: int| 0 <= m < pieces.len() && pieces[m] == env_marker() {
        let m = choose|m: int|
            0 <= m < pieces.len() && pieces[m] == env_marker() && forall|j: int|
                0 <= j < m ==> pieces[j] != env_marker();
        entries_vars(pieces.skip(m + 1))
    } else {
        Seq::empty()
    }
}

/// The views of a list of byte-string pairs.
pub open spec fn byte_pairs(v: Seq<(Vec<u8>, Vec<u8>)>) -> Seq<(Seq<u8>, Seq<u8>)> {
    v.map_values(|p: (Vec<u8>, Vec<u8>)| (p.0@, p.1@))
}

/// The zero-separated pieces of `output`.
fn split_zero(output: &[u8]) -> (r: Vec<Vec<u8>>)
    ensures
        r@.map_values(|v: Vec<u8>| v@) == zero_split(output@),
{
    let mut done: Vec<Vec<u8>> = Vec::new();
    let mut cur: Vec<u8> = Vec::new();
    let mut i: usize = 0;
    while i < output.len()
        invariant
            i <= output@.len(),
            (done@.map_values(|v: Vec<u8>| v@), cur@) == zero_scan(output@.take(i as int)),
        decreases output@.len() - i,
    {
        assert(output@.take(i + 1).drop_last() =~= output@.take(i as int));
        let b = output[i];
        if b == 0 {
            let ghost prev = done@.map_values(|v: Vec<u8>| v@);
            let piece = cur;
            cur = Vec::new();
            done.push(piece);
            assert(done@.map_values(|v: Vec<u8>| v@) =~= prev.push(piece@));
        } else {
            cur.push(b);
        }
        i = i + 1;
    }
    assert(output@.take(output@.len() as int) =~= output@);
    let ghost prev = done@.map_values(|v: Vec<u8>| v@);
    let last = cur;
    done.push(last);
    assert(done@.map_values(|v: Vec<u8>| v@) =~= prev.push(last@));
    done
}

/// Whether a piece is the marker.
fn is_marker(e: &Vec<u8>) -> (r: bool)
    ensures
        r == (e@ == env_marker()),
{
    let m: [u8; 19] = [95, 95, 79, 82, 88, 95, 68, 69, 83, 75, 84, 79, 80, 95, 69, 78, 86, 95, 95];
    assert(m@ =~= env_marker());
    if e.len() != 19 {
        return false;
    }
    let mut i: usize = 0;
    while i < 19
        invariant
            i <= 19,
            e@.len() == 19,
            m@ == env_marker(),
            forall|j: int| 0 <= j < i ==> e@[j] == m@[j],
        decreases 19 - i,
    {
        if e[i] != m[i] {
            return false;
        }
        i = i + 1;
    }
    assert(e@ =~= env_marker());
    true
}

/// A copy of `e[lo..hi]`.
fn copy_range(e: &Vec<u8>, lo: usize, hi: usize) -> (r: Vec<u8>)
    requires
        lo <= hi <= e@.len(),
    ensures
        r@ == e@.subrange(lo as int, hi as int),
{
    let mut out: Vec<u8> = Vec::new();
    let mut i = lo;
    while i < hi
        invariant
            lo <= i <= hi <= e@.len(),
            out@ == e@.subrange(lo as int, i as int),
        decreases hi - i,
    {
        out.push(e[i]);
        assert(out@ =~= e@.subrange(lo as int, i + 1));
        i = i + 1;
    }
    out
}

/// One entry as a variable, if it is `NAME=value` with a non-empty name.
fn parse_entry(e: &Vec<u8>) -> (r: Option<(Vec<u8>, Vec<u8>)>)
    ensures
        match r {
            Some(p) => entry_var(e@) == Some((p.0@, p.1@)),
            None => entry_var(e@) is None,
        },
{
    let mut i: usize = 0;
    while i < e.len()
        invariant
            i <= e@.len(),
            forall|j: int| 0 <= j < i ==> e@[j] != 61,
        decreases e@.len() - i,
    {
        if e[i] == 61 {
            proof {
                let c = choose|x: int| 0 <= x < e@.len() && e@[x] == 61 && forall|j: int|
                    0 <= j < x ==> e@[j] != 61;
                if c < i {
                } else if c > i {
                    assert(e@[i as int] == 61);
                }
                assert(first_eq(e@) == Some(i as int));
            }
            if i == 0 {
                return None;
            }
            let key = copy_range(e, 0, i);
            let value = copy_range(e, i + 1, e.len());
            assert(key@ =~= e@.take(i as int));
            assert(value@ =~= e@.skip(i + 1));
            return Some((key, value));
        }
        i = i + 1;
    }
    None
}

/// The variables a login shell reported with `env -0` after the marker,
/// as `(name, value)` byte strings in order.
pub fn parse_shell_environment(output: &[u8]) -> (r: Vec<(Vec<u8>, Vec<u8>)>)
    ensures
        byte_pairs(r@) == shell_environment(output@),
{
    let pieces = split_zero(output);
    let ghost views = pieces@.map_values(|v: Vec<u8>| v@);
    let mut m: usize = 0;
    while m < pieces.len() && !is_marker(&pieces[m])
        invariant
            m <= pieces@.len(),
            views == zero_split(output@),
            views == pieces@.map_values(|v: Vec<u8>| v@),
            forall|j: int| 0 <= j < m ==> views[j] != env_marker(),
        decreases pieces@.len() - m,
    {
        m = m + 1;
    }
    let mut out: Vec<(Vec<u8>, Vec<u8>)> = Vec::new();
    if m == pieces.len() {
        proof {
            assert forall|x: int| 0 <= x < views.len() implies views[x] != env_marker() by {}
        }
        assert(byte_pairs(out@) =~= Seq::empty());
        return out;
    }
    proof {
        assert(views[m as int] == env_marker());
        let c = choose|x: int|
            0 <= x < views.len() && views[x] == env_marker() && forall|j: int|
                0 <= j < x ==> views[j] != env_marker();
        if c < m {
        } else if c > m {
            assert(views[m as int] != env_marker());
        }
    }
    let ghost rest = views.skip(m + 1);
    let mut k: usize = m + 1;
    while k < pieces.len()
        invariant
            m < k <= pieces@.len(),
            views == pieces@.map_values(|v: Vec<u8>| v@),
            rest == views.skip(m + 1),
            byte_pairs(out@) == entries_vars(rest.take(k - m - 1)),
        decreases pieces@.len() - k,
    {
        let ghost t = rest.take(k - m);
        assert(t.drop_last() =~= rest.take(k - m - 1));
        assert(t.last() == pieces@[k as int]@);
        let ghost before = byte_pairs(out@);
        match parse_entry(&pieces[k]) {
            Some(p) => {
                out.push(p);
                assert(byte_pairs(out@) =~= before.push((p.0@, p.1@)));
            },
            None => {},
        }
        assert(byte_pairs(out@) =~= entries_vars(t));
        k = k + 1;
    }
    assert(rest.take(k - m - 1) =~= rest);
    out
}

// ---------------------------------------------------------------------------
// Launched as the app bundle
// ---------------------------------------------------------------------------

/// A path's parts as read from the left: the parts so far and the one in
/// progress.
pub open spec fn part_scan(s: Seq<char>) -> (Seq<Seq<char>>, Seq<char>)
    decreases s.len(),
{
    if s.len() == 0 {
        (Seq::empty(), Seq::empty())
    } else {
        let (done, cur) = part_scan(s.drop_last());
        if s.last() == '/' {
            (closed(done, cur), Seq::empty())
        } else {
            (done, cur.push(s.last()))
        }
    }
}

/// The parts after one more is closed: empty parts and `.` are dropped.
pub open spec fn closed(done: Seq<Seq<char>>, cur: Seq<char>) -> Seq<Seq<char>> {
    if cur.len() == 0 || cur == "."@ {
        done
    } else {
        done.push(cur)
    }
}

/// The components of a Unix path that name something: separators
/// collapsed, `.` dropped (a root or a leading `.` names nothing here).
pub open spec fn path_parts(s: Seq<char>) -> Seq<Seq<char>> {
    let (done, cur) = part_scan(s);
    closed(done, cur)
}

/// `Path::file_name`: the last component, unless it is `..` or there is none.
pub open spec fn file_name_of(s: Seq<char>) -> Option<Seq<char>> {
    let p = path_parts(s);
    if p.len() > 0 && p.last() != ".."@ {
        Some(p.last())
    } else {
        None
    }
}

/// Whether a path's directory ends in `Contents/MacOS`.
pub open spec fn in_bundle(s: Seq<char>) -> bool {
    let p = path_parts(s);
    p.len() >= 3 && p[p.len() - 3] == "Contents"@ && p[p.len() - 2] == "MacOS"@
}

/// Whether the process was launched as the app bundle's executable: it
/// lives in `Contents/MacOS` and was invoked under its own file name (from
/// Finder or directly), not through the `orx` symlink.
pub open spec fn bundle_exe_launch(exe: Seq<char>, argv0: Option<Seq<char>>) -> bool {
    in_bundle(exe) && match argv0 {
        Some(a) => file_name_of(a) == file_name_of(exe),
        None => file_name_of(exe) is None,
    }
}

/// The named components of a path.
fn parts_of(s: &str) -> (r: Vec<String>)
    ensures
        views(r@) == path_parts(s@),
{
    let v = chars_of(s);
    let mut done: Vec<String> = Vec::new();
    let mut cur = String::new();
    let mut i: usize = 0;
    while i < v.len()
        invariant
            i <= v@.len(),
            v@ == s@,
            (views(done@), cur@) == part_scan(v@.take(i as int)),
        decreases v@.len() - i,
    {
        assert(v@.take(i + 1).drop_last() =~= v@.take(i as int));
        if v[i] == '/' {
            if !cur.as_str().is_empty() && !str_eq(cur.as_str(), ".") {
                let ghost before = views(done@);
                let w = cur;
                cur = String::new();
                done.push(w);
                assert(views(done@) =~= before.push(w@));
            } else {
                cur = String::new();
            }
        } else {
            push_char(&mut cur, v[i]);
        }
        i = i + 1;
    }
    assert(v@.take(v@.len() as int) =~= v@);
    if !cur.as_str().is_empty() && !str_eq(cur.as_str(), ".") {
        let ghost before = views(done@);
        let w = cur;
        done.push(w);
        assert(views(done@) =~= before.push(w@));
    }
    done
}

/// The file name of a path.
fn file_name(s: &str) -> (r: Option<String>)
    ensures
        match r {
            Some(n) => file_name_of(s@) == Some(n@),
            None => file_name_of(s@) is None,
        },
{
    let parts = parts_of(s);
    let n = parts.len();
    if n == 0 {
        return None;
    }
    assert(views(parts@).last() == parts@[n - 1]@);
    if str_eq(parts[n - 1].as_str(), "..") {
        return None;
    }
    Some(parts[n - 1].clone())
}

/// Whether the process was launched as the app bundle's executable (see
/// `bundle_exe_launch`); `exe` is the canonical path of the running
/// executable, `argv0` the name it was invoked under.
pub fn is_bundle_exe_launch(exe: &str, argv0: Option<&str>) -> (r: bool)
    ensures
        r == bundle_exe_launch(exe@, match argv0 {
            Some(a) => Some(a@),
            None => None,
        }),
{
    let parts = parts_of(exe);
    let n = parts.len();
    let in_dir = n >= 3 && str_eq(parts[n - 3].as_str(), "Contents") && str_eq(parts[n - 2].as_str(), "MacOS");
    proof {
        if n >= 3 {
            assert(views(parts@)[n - 3] == parts@[n - 3]@);
            assert(views(parts@)[n - 2] == parts@[n - 2]@);
        }
    }
    if !in_dir {
        return false;
    }
    let own = file_name(exe);
    let invoked = match argv0 {
        Some(a) => file_name(a),
        None => None,
    };
    match (invoked, own) {
        (Some(x), Some(y)) => str_eq(x.as_str(), y.as_str()),
        (None, None) => true,
        _ => false,
    }
}


// ---------------------------------------------------------------------------
// Where a desktop instance's process record is kept
// ---------------------------------------------------------------------------

/// The text of a UUID in its canonical hyphenated lower-case form, when
/// `uuid::Uuid::parse_str` accepts `s`.
pub uninterp spec fn uuid_text(s: Seq<char>) -> Option<Seq<char>>;

/// Calls `uuid::Uuid::parse_str` and prints the UUID it accepted; the
/// result is named [`uuid_text`].
#[verifier::external_body]
fn canonical_uuid(s: &str) -> (r: Option<String>)
    ensures
        match r {
            Some(t) => uuid_text(s@) == Some(t@),
            None => uuid_text(s@) is None,
        },
{
    uuid::Uuid::parse_str(s).ok().map(|u| u.to_string())
}

/// The file, inside the desktop process directory, that records the
/// desktop instance `instance_id`: its canonical UUID with `.json`
/// appended; none when the id is no UUID.
pub fn process_state_file(instance_id: &str) -> (r: Option<String>)
    ensures
        match uuid_text(instance_id@) {
            Some(u) => r matches Some(f) && f@ == u + ".json"@,
            None => r is None,
        },
{
    match canonical_uuid(instance_id) {
        Some(u) => {
            let mut f = u;
            push_str(&mut f, ".json");
            Some(f)
        },
        None => None,
    }
}

} // verus!
