//! OpenResearch backend — an ephemeral platform box per run.
//!
//! Submit provisions a GPU or CPU sandbox, the supervisor polls it until it is
//! online, runs the payload on it over ssh, and deletes the box once the run
//! is terminal. This module holds the decisions of that flow: parsing the
//! `--flavor`, the provisioning deadline anchored to the sandbox id, the
//! shape of the remote commands, the failure message, and one step of the
//! online wait. Durations are milliseconds.

use vstd::prelude::*;

use crate::text::{
    chars_of, contains_seq, contains_str, decimal, is_prefix, owned, parse_i64, parse_i64_spec,
    push_char, push_decimal, push_str, starts_with, str_eq, string_of_range, to_ascii_uppercase,
    trim, trim_seq, upper_seq,
};

verus! {

/// How long provisioning may take before the run is failed (five minutes).
pub const PROVISION_DEADLINE_MS: u64 = 300_000;

/// Time between two polls of the sandbox.
pub const POLL_INTERVAL_MS: u64 = 5_000;

/// The longest a single sandbox status request may take.
pub const REQUEST_BUDGET_MS: u64 = 15_000;

// ---------------------------------------------------------------------------
// Provisioning deadline
// ---------------------------------------------------------------------------

/// The sandbox id without its dashes.
pub open spec fn without_dashes(s: Seq<char>) -> Seq<char>
    decreases s.len(),
{
    if s.len() == 0 {
        s
    } else if s.last() == '-' {
        without_dashes(s.drop_last())
    } else {
        without_dashes(s.drop_last()).push(s.last())
    }
}

/// The character is an ASCII hexadecimal digit.
pub open spec fn is_hex_digit(c: char) -> bool {
    ('0' <= c && c <= '9') || ('a' <= c && c <= 'f') || ('A' <= c && c <= 'F')
}

/// The value of one hexadecimal digit.
pub open spec fn hex_digit_value(c: char) -> nat {
    if '0' <= c && c <= '9' {
        ((c as u32) - 48) as nat
    } else if 'a' <= c && c <= 'f' {
        ((c as u32) - 87) as nat
    } else {
        ((c as u32) - 55) as nat
    }
}

/// The value of a sequence of hexadecimal digits.
pub open spec fn hex_value(s: Seq<char>) -> nat
    decreases s.len(),
{
    if s.len() == 0 {
        0
    } else {
        hex_value(s.drop_last()) * 16 + hex_digit_value(s.last())
    }
}

/// Every character is a hexadecimal digit.
pub open spec fn all_hex(s: Seq<char>) -> bool {
    forall|i: int| 0 <= i < s.len() ==> is_hex_digit(#[trigger] s[i])
}

/// The digits after an optional leading `+`.
pub open spec fn hex_body(s: Seq<char>) -> Seq<char> {
    if s.len() > 0 && s[0] == '+' {
        s.drop_first()
    } else {
        s
    }
}

/// What `u64::from_str_radix(s, 16)` returns on a text of at most twelve
/// characters: an optional `+`, then one or more hexadecimal digits.
pub open spec fn parse_hex_spec(s: Seq<char>) -> Option<nat> {
    let body = hex_body(s);
    if body.len() > 0 && all_hex(body) {
        Some(hex_value(body))
    } else {
        None
    }
}

/// The creation time a time-ordered (v7) sandid id encodes: the first twelve
/// hexadecimal digits after dropping dashes, read as milliseconds.
pub open spec fn sandbox_created_at_spec(sandbox_id: Seq<char>) -> Option<nat> {
    let digits = without_dashes(sandbox_id);
    if digits.len() < 12 {
        None
    } else {
        parse_hex_spec(digits.take(12))
    }
}

/// Whether provisioning has run out of time: measured from the creation time
/// in the sandbox id when it has one that is not in the future, else from the
/// time this process has been waiting.
pub open spec fn provisioning_timed_out_spec(
    sandbox_id: Seq<char>,
    fallback_elapsed_ms: nat,
    observed_at_ms: nat,
    deadline_ms: nat,
) -> bool {
    match sandbox_created_at_spec(sandbox_id) {
        Some(created) if created <= observed_at_ms => observed_at_ms - created >= deadline_ms,
        _ => fallback_elapsed_ms >= deadline_ms,
    }
}

/// How much of the provisioning deadline is left, measured as in
/// [`provisioning_timed_out_spec`], never below zero.
pub open spec fn provisioning_remaining_spec(
    sandbox_id: Seq<char>,
    fallback_elapsed_ms: nat,
    observed_at_ms: nat,
    deadline_ms: nat,
) -> nat {
    match sandbox_created_at_spec(sandbox_id) {
        Some(created) if created <= observed_at_ms => {
            let waited = (observed_at_ms - created) as nat;
            if deadline_ms > waited {
                (deadline_ms - waited) as nat
            } else {
                0
            }
        },
        _ => if deadline_ms > fallback_elapsed_ms {
            (deadline_ms - fallback_elapsed_ms) as nat
        } else {
            0
        },
    }
}

pub open spec fn pow16(k: nat) -> nat
    decreases k,
{
    if k == 0 {
        1
    } else {
        16 * pow16((k - 1) as nat)
    }
}

proof fn lemma_hex_value_bound(s: Seq<char>)
    requires
        forall|i: int| 0 <= i < s.len() ==> is_hex_digit(#[trigger] s[i]),
    ensures
        hex_value(s) < pow16(s.len()),
    decreases s.len(),
{
    if s.len() > 0 {
        let t = s.drop_last();
        assert forall|i: int| 0 <= i < t.len() implies is_hex_digit(#[trigger] t[i]) by {
            assert(t[i] == s[i]);
        }
        lemma_hex_value_bound(t);
        assert(is_hex_digit(s[s.len() - 1]));
        assert(hex_digit_value(s.last()) < 16);
    }
}

proof fn lemma_pow16_12()
    ensures
        pow16(12) == 281474976710656,
{
    reveal_with_fuel(pow16, 13);
}

proof fn lemma_pow16_mono(a: nat, b: nat)
    requires
        a <= b,
    ensures
        pow16(a) <= pow16(b),
    decreases b,
{
    if a < b {
        lemma_pow16_mono(a, (b - 1) as nat);
    }
}

/// The value of one hexadecimal digit.
fn hex_digit_of(c: char) -> (r: u64)
    requires
        is_hex_digit(c),
    ensures
        r == hex_digit_value(c),
        r < 16,
{
    if '0' <= c && c <= '9' {
        (c as u32 - 48) as u64
    } else if 'a' <= c && c <= 'f' {
        (c as u32 - 87) as u64
    } else {
        (c as u32 - 55) as u64
    }
}

/// The creation time, in milliseconds, that a time-ordered sandbox id encodes.
pub fn sandbox_created_at_ms(sandbox_id: &str) -> (r: Option<u64>)
    ensures
        match r {
            Some(v) => sandbox_created_at_spec(sandbox_id@) == Some(v as nat),
            None => sandbox_created_at_spec(sandbox_id@) is None,
        },
{
    let v = chars_of(sandbox_id);
    // Collect up to twelve non-dash characters, in order.
    let mut digits: Vec<char> = Vec::new();
    let mut i: usize = 0;
    while i < v.len()
        invariant
            i <= v.len(),
            v@ == sandbox_id@,
            digits@.len() <= 12,
            digits@ == (if without_dashes(v@.take(i as int)).len() <= 12 {
                without_dashes(v@.take(i as int))
            } else {
                without_dashes(v@.take(i as int)).take(12)
            }),
        decreases v.len() - i,
    {
        assert(v@.take(i + 1).drop_last() =~= v@.take(i as int));
        proof {
            lemma_without_dashes_len_mono(v@.take(i + 1));
        }
        if v[i] != '-' && digits.len() < 12 {
            digits.push(v[i]);
        }
        proof {
            let w0 = without_dashes(v@.take(i as int));
            let w1 = without_dashes(v@.take(i + 1));
            if v@[i as int] != '-' {
                assert(w1 == w0.push(v@[i as int]));
                if w0.len() >= 12 {
                    assert(w1.take(12) =~= w0.take(12));
                }
            }
        }
        i = i + 1;
    }
    assert(v@.take(v.len() as int) =~= v@);
    if digits.len() != 12 {
        return None;
    }
    assert(without_dashes(v@).take(12) =~= digits@);
    let plus = digits[0] == '+';
    let start: usize = if plus { 1 } else { 0 };
    let ghost body = hex_body(digits@);
    assert(body =~= digits@.subrange(start as int, 12));
    if start >= digits.len() {
        return None;
    }
    let mut acc: u64 = 0;
    let mut k: usize = start;
    while k < digits.len()
        invariant
            start <= k <= digits.len(),
            digits.len() == 12,
            body == digits@.subrange(start as int, 12),
            body == hex_body(digits@),
            digits@ == without_dashes(sandbox_id@).take(12),
            forall|j: int| 0 <= j < k - start ==> is_hex_digit(#[trigger] body[j]),
            acc as nat == hex_value(body.take(k - start)),
            acc < pow16((k - start) as nat),
        decreases digits.len() - k,
    {
        let c = digits[k];
        assert(body[k - start] == c);
        if !(('0' <= c && c <= '9') || ('a' <= c && c <= 'f') || ('A' <= c && c <= 'F')) {
            assert(!is_hex_digit(body[k - start]));
            assert(!all_hex(body));
            return None;
        }
        let d = hex_digit_of(c);
        proof {
            assert(body.take(k - start + 1).drop_last() =~= body.take(k - start));
            lemma_pow16_mono((k - start + 1) as nat, 12);
            lemma_pow16_12();
        }
        acc = acc * 16 + d;
        k = k + 1;
    }
    assert(body.take(body.len() as int) =~= body);
    Some(acc)
}

proof fn lemma_without_dashes_len_mono(s: Seq<char>)
    requires
        s.len() > 0,
    ensures
        without_dashes(s.drop_last()).len() <= without_dashes(s).len(),
{
}

/// Whether provisioning has run out of time.
pub fn provisioning_timed_out(
    sandbox_id: &str,
    fallback_elapsed_ms: u64,
    observed_at_ms: u64,
    deadline_ms: u64,
) -> (r: bool)
    ensures
        r == provisioning_timed_out_spec(
            sandbox_id@,
            fallback_elapsed_ms as nat,
            observed_at_ms as nat,
            deadline_ms as nat,
        ),
{
    match sandbox_created_at_ms(sandbox_id) {
        Some(created) if created <= observed_at_ms => observed_at_ms - created >= deadline_ms,
        _ => fallback_elapsed_ms >= deadline_ms,
    }
}

/// How much of the provisioning deadline is left.
pub fn provisioning_remaining(
    sandbox_id: &str,
    fallback_elapsed_ms: u64,
    observed_at_ms: u64,
    deadline_ms: u64,
) -> (r: u64)
    ensures
        r as nat == provisioning_remaining_spec(
            sandbox_id@,
            fallback_elapsed_ms as nat,
            observed_at_ms as nat,
            deadline_ms as nat,
        ),
{
    match sandbox_created_at_ms(sandbox_id) {
        Some(created) if created <= observed_at_ms => {
            let waited = observed_at_ms - created;
            if deadline_ms > waited {
                deadline_ms - waited
            } else {
                0
            }
        },
        _ => if deadline_ms > fallback_elapsed_ms {
            deadline_ms - fallback_elapsed_ms
        } else {
            0
        },
    }
}

/// Provisioning has timed out exactly when no time remains: the two measures
/// of the deadline never disagree.
pub proof fn law_timed_out_iff_nothing_remains(
    sandbox_id: Seq<char>,
    fallback_elapsed_ms: nat,
    observed_at_ms: nat,
    deadline_ms: nat,
)
    ensures
        provisioning_timed_out_spec(sandbox_id, fallback_elapsed_ms, observed_at_ms, deadline_ms)
            <==> provisioning_remaining_spec(
            sandbox_id,
            fallback_elapsed_ms,
            observed_at_ms,
            deadline_ms,
        ) == 0,
{
}

/// Waiting longer never un-expires provisioning: with the sandbox's creation
/// time fixed, a later observation that timed out stays timed out.
pub proof fn law_timeout_is_monotone(
    sandbox_id: Seq<char>,
    fallback_elapsed_ms: nat,
    later_fallback_elapsed_ms: nat,
    observed_at_ms: nat,
    later_observed_at_ms: nat,
    deadline_ms: nat,
)
    requires
        fallback_elapsed_ms <= later_fallback_elapsed_ms,
        observed_at_ms <= later_observed_at_ms,
        provisioning_timed_out_spec(sandbox_id, fallback_elapsed_ms, observed_at_ms, deadline_ms),
        match sandbox_created_at_spec(sandbox_id) {
            Some(created) => created <= observed_at_ms || later_observed_at_ms < created,
            None => true,
        },
    ensures
        provisioning_timed_out_spec(
            sandbox_id,
            later_fallback_elapsed_ms,
            later_observed_at_ms,
            deadline_ms,
        ),
{
}

// ---------------------------------------------------------------------------
// Remote layout and commands
// ---------------------------------------------------------------------------

/// `.orx/runs/<run_id>`: the remote run directory, relative to `$HOME`.
pub open spec fn run_dir_spec(run_id: Seq<char>) -> Seq<char> {
    ".orx/runs/"@ + run_id
}

/// The remote run directory for a run, relative to `$HOME` (the convention
/// shared with the ssh backend).
pub fn run_dir(run_id: &str) -> (r: String)
    ensures
        r@ == run_dir_spec(run_id@),
{
    let mut s = owned(".orx/runs/");
    push_str(&mut s, run_id);
    s
}

/// POSIX single-quoting: `'` around the text, each inner `'` written `'\''`.
pub open spec fn sh_quote_body(s: Seq<char>) -> Seq<char>
    decreases s.len(),
{
    if s.len() == 0 {
        s
    } else if s.last() == '\'' {
        sh_quote_body(s.drop_last()) + "'\\''"@
    } else {
        sh_quote_body(s.drop_last()).push(s.last())
    }
}

pub open spec fn sh_quote_spec(s: Seq<char>) -> Seq<char> {
    seq!['\''] + sh_quote_body(s) + seq!['\'']
}

/// Quote a script so that `bash -c` receives it as one word, byte for byte.
pub fn sh_quote(s: &str) -> (r: String)
    ensures
        r@ == sh_quote_spec(s@),
{
    let v = chars_of(s);
    let mut out = String::new();
    push_char(&mut out, '\'');
    let mut i: usize = 0;
    while i < v.len()
        invariant
            i <= v.len(),
            v@ == s@,
            out@ == seq!['\''] + sh_quote_body(v@.take(i as int)),
        decreases v.len() - i,
    {
        assert(v@.take(i + 1).drop_last() =~= v@.take(i as int));
        if v[i] == '\'' {
            push_str(&mut out, "'\\''");
        } else {
            push_char(&mut out, v[i]);
        }
        i = i + 1;
    }
    assert(v@.take(v.len() as int) =~= v@);
    push_char(&mut out, '\'');
    out
}

/// The guarded remote command: the payload under GNU `timeout`, TERM first
/// and KILL thirty seconds later, reporting a timeout on stderr and keeping
/// the payload's exit status.
pub open spec fn wrap_with_timeout_spec(script: Seq<char>, timeout_secs: nat) -> Seq<char> {
    "timeout --signal=TERM --kill-after=30s "@ + decimal(timeout_secs) + " bash -c "@
        + sh_quote_spec(script) + "\nrc=$?\nif [ \"$rc\" = 124 ]; then echo \"orx: run timed out after "@
        + decimal(timeout_secs) + "s\" >&2; fi\nexit $rc"@
}

/// Wrap the clone-and-run payload in a wall-clock guard so a hung run cannot
/// bill the box forever.
pub fn wrap_with_timeout(script: &str, timeout_secs: u64) -> (r: String)
    ensures
        r@ == wrap_with_timeout_spec(script@, timeout_secs as nat),
{
    let mut s = owned("timeout --signal=TERM --kill-after=30s ");
    push_decimal(&mut s, timeout_secs);
    push_str(&mut s, " bash -c ");
    let q = sh_quote(script);
    push_str(&mut s, q.as_str());
    push_str(&mut s, "\nrc=$?\nif [ \"$rc\" = 124 ]; then echo \"orx: run timed out after ");
    push_decimal(&mut s, timeout_secs);
    push_str(&mut s, "s\" >&2; fi\nexit $rc");
    s
}

/// The durable remote launch state of a run.
#[derive(Debug, Clone, Copy, PartialEq, Eq, Structural)]
pub enum LaunchProbe {
    /// A pid or an exit code was published: the payload started.
    Started,
    /// Nothing happened yet on the box.
    Fresh,
    /// A launcher claimed the run but has not published a pid.
    Claimed,
}

/// The shell probe run on the box to learn the launch state of a run.
pub open spec fn launch_probe_script_spec(run_id: Seq<char>) -> Seq<char> {
    "d=\"$HOME/"@ + run_dir_spec(run_id)
        + "\"; if [ -e \"$d/pid\" ] || [ -e \"$d/exit_code\" ]; then echo STARTED; elif [ -d \"$d/.launch-claim\" ]; then echo CLAIMED; else echo FRESH; fi"@
}

/// The remote command that reports whether a run's payload started.
pub fn launch_probe_script(run_id: &str) -> (r: String)
    ensures
        r@ == launch_probe_script_spec(run_id@),
{
    let mut s = owned("d=\"$HOME/");
    let dir = run_dir(run_id);
    push_str(&mut s, dir.as_str());
    push_str(
        &mut s,
        "\"; if [ -e \"$d/pid\" ] || [ -e \"$d/exit_code\" ]; then echo STARTED; elif [ -d \"$d/.launch-claim\" ]; then echo CLAIMED; else echo FRESH; fi",
    );
    s
}

/// Read the probe's output: `STARTED` wins over `CLAIMED`, and anything else is fresh.
pub fn launch_probe_from_output(out: &str) -> (r: LaunchProbe)
    ensures
        r == (if contains_seq(out@, "STARTED"@) {
            LaunchProbe::Started
        } else if contains_seq(out@, "CLAIMED"@) {
            LaunchProbe::Claimed
        } else {
            LaunchProbe::Fresh
        }),
{
    if contains_str(out, "STARTED") {
        LaunchProbe::Started
    } else if contains_str(out, "CLAIMED") {
        LaunchProbe::Claimed
    } else {
        LaunchProbe::Fresh
    }
}

// ---------------------------------------------------------------------------
// Flavors
// ---------------------------------------------------------------------------

/// What `POST /sandboxes` is asked to create.
#[derive(Debug, Clone, PartialEq, Eq)]
pub enum SandboxTarget {
    /// A GPU box: an upper-case GPU id, a GPU count, a disk size and an optional provider.
    New { gpu: String, gpu_count: i64, disk_gb: i64, provider: Option<String> },
    /// A CPU box: the CPU flavor and its vCPU count.
    NewCpu { cpu_flavor: String, vcpu_count: i64 },
}

/// `i` is the first position of `c` in `s`.
pub open spec fn is_first_index(s: Seq<char>, c: char, i: int) -> bool {
    0 <= i < s.len() && s[i] == c && forall|j: int| 0 <= j < i ==> s[j] != c
}

/// `str::split_once(c)`: the text before and after the first `c`.
pub open spec fn split_once_spec(s: Seq<char>, c: char) -> Option<(Seq<char>, Seq<char>)> {
    if exists|i: int| is_first_index(s, c, i) {
        let i = choose|i: int| is_first_index(s, c, i);
        Some((s.take(i), s.skip(i + 1)))
    } else {
        None
    }
}

proof fn lemma_first_index_unique(s: Seq<char>, c: char, i: int, j: int)
    requires
        is_first_index(s, c, i),
        is_first_index(s, c, j),
    ensures
        i == j,
{
    if i < j {
        assert(s[i] != c);
    } else if j < i {
        assert(s[j] != c);
    }
}

/// The first position of `c` in `v`.
pub fn first_index(v: &Vec<char>, c: char) -> (r: Option<usize>)
    ensures
        match r {
            Some(i) => is_first_index(v@, c, i as int),
            None => forall|i: int| 0 <= i < v@.len() ==> v@[i] != c,
        },
{
    let mut i: usize = 0;
    while i < v.len()
        invariant
            i <= v.len(),
            forall|j: int| 0 <= j < i ==> v@[j] != c,
        decreases v.len() - i,
    {
        if v[i] == c {
            return Some(i);
        }
        i = i + 1;
    }
    None
}

/// The `split_once` position, tied to its specification.
pub fn split_once_index(v: &Vec<char>, c: char) -> (r: Option<usize>)
    ensures
        match r {
            Some(i) => i < v@.len() && split_once_spec(v@, c) == Some(
                (v@.take(i as int), v@.skip(i + 1)),
            ),
            None => split_once_spec(v@, c) is None,
        },
{
    let r = first_index(v, c);
    proof {
        match r {
            Some(i) => {
                let j = choose|j: int| is_first_index(v@, c, j);
                lemma_first_index_unique(v@, c, i as int, j);
            },
            None => {
                if exists|i: int| is_first_index(v@, c, i) {
                    let i = choose|i: int| is_first_index(v@, c, i);
                    assert(v@[i] != c);
                }
            },
        }
    }
    r
}

/// The error for a `:<count>` suffix that is not a positive number.
pub open spec fn bad_count_message(flavor: Seq<char>, count: Seq<char>) -> Seq<char> {
    "Bad --flavor '"@ + flavor + "': the ':"@ + count
        + "' suffix must be a positive count (GPUs) or vCPU tier. See `orx compute` for available shapes."@
}

/// The error for a flavor with nothing before the suffix.
pub open spec fn empty_flavor_message() -> Seq<char> {
    "--flavor is empty. Pass a GPU id like h100_sxm[:count] or a CPU flavor like cpu5c[:vcpus] — see `orx compute`."@
}

/// The count a `:<count>` suffix denotes, when it is a positive `i64`.
pub open spec fn positive_count(s: Seq<char>) -> Option<int> {
    match parse_i64_spec(s) {
        Some(v) if v >= 1 => Some(v),
        _ => None,
    }
}

/// What `parse_flavor` yields: `<gpu_id>[:count]` (default one GPU, id
/// upper-cased) or `cpu…[:vcpus]` (default eight vCPUs), after trimming.
pub open spec fn parse_flavor_spec(
    flavor: Seq<char>,
    disk_gb: int,
    provider: Option<Seq<char>>,
) -> Result<(bool, Seq<char>, int), Seq<char>> {
    let f = trim_seq(flavor);
    let split = split_once_spec(f, ':');
    let base = match split {
        Some((b, _)) => b,
        None => f,
    };
    let count: Result<Option<int>, Seq<char>> = match split {
        Some((_, c)) => match positive_count(c) {
            Some(n) => Ok(Some(n)),
            None => Err(bad_count_message(f, c)),
        },
        None => Ok(None),
    };
    match count {
        Err(e) => Err(e),
        Ok(n) => if base.len() == 0 {
            Err(empty_flavor_message())
        } else if is_prefix("cpu"@, base) {
            Ok((
                true,
                base,
                match n {
                    Some(k) => k,
                    None => 8,
                },
            ))
        } else {
            Ok((
                false,
                upper_seq(base),
                match n {
                    Some(k) => k,
                    None => 1,
                },
            ))
        },
    }
}

/// The shape of a target, for stating [`parse_flavor`]'s contract: whether it
/// is a CPU box, its id, and its count.
pub open spec fn target_shape(t: SandboxTarget) -> (bool, Seq<char>, int) {
    match t {
        SandboxTarget::New { gpu, gpu_count, .. } => (false, gpu@, gpu_count as int),
        SandboxTarget::NewCpu { cpu_flavor, vcpu_count } => (true, cpu_flavor@, vcpu_count as int),
    }
}

/// Parse `--flavor` into a `POST /sandboxes` target: `<gpu_id>[:count]` (for
/// example `h100_sxm:2`) or a CPU flavor `cpu…[:vcpus]` (for example `cpu5c:8`).
pub fn parse_flavor(flavor: &str, disk_gb: i64, provider: Option<String>) -> (r: Result<
    SandboxTarget,
    String,
>)
    ensures
        match (r, parse_flavor_spec(
            flavor@,
            disk_gb as int,
            match provider {
                Some(p) => Some(p@),
                None => None,
            },
        )) {
            (Ok(t), Ok(shape)) => target_shape(t) == shape && match t {
                SandboxTarget::New { disk_gb: d, provider: p, .. } => d == disk_gb && p == provider,
                SandboxTarget::NewCpu { .. } => true,
            },
            (Err(e), Err(m)) => e@ == m,
            _ => false,
        },
{
    let trimmed = trim(flavor);
    let f = chars_of(trimmed.as_str());
    let split = split_once_index(&f, ':');
    let (base_end, count): (usize, Option<i64>) = match split {
        Some(i) => {
            let count_text = string_of_range(&f, i + 1, f.len());
            assert(count_text@ =~= f@.skip(i + 1));
            match parse_i64(count_text.as_str()) {
                Some(n) if n >= 1 => (i, Some(n)),
                _ => {
                    let mut msg = owned("Bad --flavor '");
                    push_str(&mut msg, trimmed.as_str());
                    push_str(&mut msg, "': the ':");
                    push_str(&mut msg, count_text.as_str());
                    push_str(
                        &mut msg,
                        "' suffix must be a positive count (GPUs) or vCPU tier. See `orx compute` for available shapes.",
                    );
                    return Err(msg);
                },
            }
        },
        None => (f.len(), None),
    };
    assert(f@.take(base_end as int) =~= f@.subrange(0, base_end as int));
    if base_end == 0 {
        proof {
            if split is None {
                assert(f@.len() == 0);
            }
        }
        return Err(owned(
            "--flavor is empty. Pass a GPU id like h100_sxm[:count] or a CPU flavor like cpu5c[:vcpus] — see `orx compute`.",
        ));
    }
    let base = string_of_range(&f, 0, base_end);
    proof {
        if split is None {
            assert(f@.subrange(0, f@.len() as int) =~= f@);
        }
    }
    if starts_with(base.as_str(), "cpu") {
        Ok(
            SandboxTarget::NewCpu {
                cpu_flavor: base,
                vcpu_count: match count {
                    Some(n) => n,
                    None => 8,
                },
            },
        )
    } else {
        Ok(
            SandboxTarget::New {
                gpu: to_ascii_uppercase(base.as_str()),
                gpu_count: match count {
                    Some(n) => n,
                    None => 1,
                },
                disk_gb,
                provider,
            },
        )
    }
}

// ---------------------------------------------------------------------------
// Sandboxes and the online wait
// ---------------------------------------------------------------------------

/// The fields of a sandbox record that the provisioning flow reads.
#[derive(Debug, Clone, PartialEq, Eq)]
pub struct Sandbox {
    pub id: String,
    pub status: String,
    pub ssh_hostname: Option<String>,
    pub ssh_port: Option<u16>,
    pub ssh_username: Option<String>,
    pub provision_warnings: Option<String>,
    pub provision_stage: Option<String>,
    pub provision_error_code: Option<String>,
    pub provision_error_message: Option<String>,
    pub last_health_error: Option<String>,
}

pub open spec fn opt_view(o: Option<String>) -> Option<Seq<char>> {
    match o {
        Some(s) => Some(s@),
        None => None,
    }
}

/// "Box <id> failed[ during <stage>][ (<code>)]: <detail>." — the stage is
/// named only alongside an error code, and the detail is the first of the
/// error message, the last health error and the provisioning warnings.
pub open spec fn failed_sandbox_message_spec(s: Sandbox) -> Seq<char> {
    let stage = match (s.provision_error_code, s.provision_stage) {
        (Some(_), Some(st)) => " during "@ + st@,
        _ => Seq::empty(),
    };
    let code = match s.provision_error_code {
        Some(c) => " ("@ + c@ + ")"@,
        None => Seq::empty(),
    };
    let detail = match (s.provision_error_message, s.last_health_error, s.provision_warnings) {
        (Some(m), _, _) => m@,
        (None, Some(h), _) => h@,
        (None, None, Some(w)) => w@,
        (None, None, None) => "the provider did not return a failure reason"@,
    };
    "Box "@ + s.id@ + " failed"@ + stage + code + ": "@ + detail + "."@
}

/// The message that explains a server-declared provisioning failure.
pub fn failed_sandbox_message(sandbox: &Sandbox) -> (r: String)
    ensures
        r@ == failed_sandbox_message_spec(*sandbox),
{
    let mut s = owned("Box ");
    push_str(&mut s, sandbox.id.as_str());
    push_str(&mut s, " failed");
    if let (Some(_), Some(stage)) = (&sandbox.provision_error_code, &sandbox.provision_stage) {
        push_str(&mut s, " during ");
        push_str(&mut s, stage.as_str());
    }
    if let Some(code) = &sandbox.provision_error_code {
        push_str(&mut s, " (");
        push_str(&mut s, code.as_str());
        push_str(&mut s, ")");
    }
    push_str(&mut s, ": ");
    match (&sandbox.provision_error_message, &sandbox.last_health_error, &sandbox.provision_warnings) {
        (Some(m), _, _) => push_str(&mut s, m.as_str()),
        (None, Some(h), _) => push_str(&mut s, h.as_str()),
        (None, None, Some(w)) => push_str(&mut s, w.as_str()),
        (None, None, None) => push_str(&mut s, "the provider did not return a failure reason"),
    }
    push_str(&mut s, ".");
    proof {
        let sp = *sandbox;
        let stage = match (sp.provision_error_code, sp.provision_stage) {
            (Some(_), Some(st)) => " during "@ + st@,
            _ => Seq::<char>::empty(),
        };
        assert(s@ =~= failed_sandbox_message_spec(sp)) by {
            if sp.provision_error_code is None || sp.provision_stage is None {
                assert(stage =~= Seq::<char>::empty());
            }
        }
    }
    s
}

/// What the online wait resolved to when it did not fail.
#[derive(Debug)]
pub enum WaitOutcome {
    /// The box is online with its SSH endpoint populated.
    Online(Box<Sandbox>),
    /// The caller's cancel check fired first; the box may still be booting.
    Cancelled,
    /// The API recorded a terminal provisioning failure; the message explains it.
    Failed(String),
    /// The five-minute limit elapsed; the message says so.
    TimedOut(String),
}

/// What one status request returned.
pub enum SandboxPoll {
    /// The request answered with the sandbox record.
    Answered(Sandbox),
    /// The request took longer than its budget.
    RequestTimedOut,
    /// The API answered 404: the sandbox no longer exists.
    NotFound,
    /// Any other API failure, with its message.
    ApiError(String),
}

/// The next move of the online wait.
pub enum WaitStep {
    /// The wait is over with this outcome.
    Finished(WaitOutcome),
    /// The wait failed with this error.
    Failed(String),
    /// Ask for the sandbox's status with this request budget.
    Poll { budget_ms: u64 },
    /// Sleep this long and poll again, remembering the last API error.
    Sleep { delay_ms: u64, last_error: Option<String> },
}

/// "Box <id> did not come online within <m>m[ (last API error: <e>)]."
pub open spec fn not_online_message_spec(id: Seq<char>, deadline_ms: nat, last_error: Option<Seq<char>>) -> Seq<
    char,
> {
    "Box "@ + id + " did not come online within "@ + decimal(deadline_ms / 60000) + "m"@ + match last_error {
        Some(e) => " (last API error: "@ + e + ")"@,
        None => Seq::empty(),
    } + "."@
}

fn not_online_message(sandbox_id: &str, deadline_ms: u64, last_error: &Option<String>) -> (r: String)
    ensures
        r@ == not_online_message_spec(sandbox_id@, deadline_ms as nat, opt_view(*last_error)),
{
    let mut s = owned("Box ");
    push_str(&mut s, sandbox_id);
    push_str(&mut s, " did not come online within ");
    push_decimal(&mut s, deadline_ms / 60000);
    push_str(&mut s, "m");
    if let Some(e) = last_error {
        push_str(&mut s, " (last API error: ");
        push_str(&mut s, e.as_str());
        push_str(&mut s, ")");
    }
    push_str(&mut s, ".");
    proof {
        if last_error is None {
            assert(s@ =~= not_online_message_spec(sandbox_id@, deadline_ms as nat, opt_view(*last_error)));
        }
    }
    s
}

/// The first move of each round of the online wait: stop on cancellation or
/// on an expired deadline, else poll with at most fifteen seconds of budget.
pub fn wait_online_begin(
    sandbox_id: &str,
    deadline_ms: u64,
    cancelled: bool,
    elapsed_ms: u64,
    observed_at_ms: u64,
    last_error: Option<String>,
) -> (r: WaitStep)
    ensures
        cancelled ==> r == WaitStep::Finished(WaitOutcome::Cancelled),
        !cancelled ==> {
            let remaining = provisioning_remaining_spec(
                sandbox_id@,
                elapsed_ms as nat,
                observed_at_ms as nat,
                deadline_ms as nat,
            );
            if remaining == 0 {
                r matches WaitStep::Finished(WaitOutcome::TimedOut(m)) && m@ == not_online_message_spec(
                    sandbox_id@,
                    deadline_ms as nat,
                    opt_view(last_error),
                )
            } else {
                r == WaitStep::Poll {
                    budget_ms: if remaining < REQUEST_BUDGET_MS {
                        remaining as u64
                    } else {
                        REQUEST_BUDGET_MS
                    },
                }
            }
        },
{
    if cancelled {
        return WaitStep::Finished(WaitOutcome::Cancelled);
    }
    let remaining = provisioning_remaining(sandbox_id, elapsed_ms, observed_at_ms, deadline_ms);
    if remaining == 0 {
        return WaitStep::Finished(
            WaitOutcome::TimedOut(not_online_message(sandbox_id, deadline_ms, &last_error)),
        );
    }
    WaitStep::Poll {
        budget_ms: if remaining < REQUEST_BUDGET_MS {
            remaining
        } else {
            REQUEST_BUDGET_MS
        },
    }
}

/// The sandbox is online and all three SSH endpoint fields are known.
pub open spec fn is_reachable(s: Sandbox) -> bool {
    s.status@ == "online"@ && s.ssh_hostname is Some && s.ssh_port is Some && s.ssh_username is Some
}

/// "Box <id> went <status> while provisioning[: <warnings>]."
pub open spec fn went_down_message(id: Seq<char>, s: Sandbox) -> Seq<char> {
    "Box "@ + id + " went "@ + s.status@ + " while provisioning"@ + match s.provision_warnings {
        Some(w) => ": "@ + w@,
        None => Seq::empty(),
    } + "."@
}

/// The error for a sandbox that vanished after creation.
pub open spec fn disappeared_message(id: Seq<char>) -> Seq<char> {
    "Box "@ + id
        + " disappeared after it was created (the API returned 404). This is a terminal provisioning failure on an older server."@
}

/// The API error remembered after a request that ran out of budget.
pub open spec fn request_timeout_message(budget_ms: nat) -> Seq<char> {
    "sandbox status request timed out after "@ + decimal(budget_ms / 1000) + "s"@
}

/// What the online wait remembers of a poll and whether it decides the wait.
pub open spec fn poll_verdict(
    sandbox_id: Seq<char>,
    deadline_ms: nat,
    budget_ms: nat,
    elapsed_ms: nat,
    response_at_ms: nat,
    poll: SandboxPoll,
) -> Result<Option<Seq<char>>, ()> {
    match poll {
        SandboxPoll::RequestTimedOut => Ok(Some(request_timeout_message(budget_ms))),
        SandboxPoll::ApiError(e) => Ok(Some(e@)),
        SandboxPoll::NotFound => Err(()),
        SandboxPoll::Answered(s) => if s.status@ == "failed"@ || provisioning_timed_out_spec(
            sandbox_id,
            elapsed_ms,
            response_at_ms,
            deadline_ms,
        ) || is_reachable(s) || s.status@ == "offline"@ || s.status@ == "dead"@ {
            Err(())
        } else {
            Ok(None)
        },
    }
}

/// The move after one status request.
///
/// A `failed` sandbox ends the wait with its failure message; an answer that
/// arrives after the deadline times the wait out; a reachable online sandbox
/// ends it; `offline`/`dead` and a 404 are errors. Otherwise the wait sleeps
/// (at most five seconds, never past the deadline, measured at
/// `observed_at_ms`) unless that check finds the deadline passed.
pub fn wait_online_after_poll(
    sandbox_id: &str,
    deadline_ms: u64,
    budget_ms: u64,
    elapsed_ms: u64,
    response_at_ms: u64,
    observed_at_ms: u64,
    poll: SandboxPoll,
) -> (r: WaitStep)
    ensures
        match poll {
            SandboxPoll::NotFound => r matches WaitStep::Failed(m) && m@ == disappeared_message(
                sandbox_id@,
            ),
            SandboxPoll::Answered(s) => {
                if s.status@ == "failed"@ {
                    r matches WaitStep::Finished(WaitOutcome::Failed(m)) && m@
                        == failed_sandbox_message_spec(s)
                } else if provisioning_timed_out_spec(
                    sandbox_id@,
                    elapsed_ms as nat,
                    response_at_ms as nat,
                    deadline_ms as nat,
                ) {
                    r matches WaitStep::Finished(WaitOutcome::TimedOut(m)) && m@
                        == not_online_message_spec(sandbox_id@, deadline_ms as nat, None)
                } else if is_reachable(s) {
                    r matches WaitStep::Finished(WaitOutcome::Online(b)) && *b == s
                } else if s.status@ == "offline"@ || s.status@ == "dead"@ {
                    r matches WaitStep::Failed(m) && m@ == went_down_message(sandbox_id@, s)
                } else {
                    true
                }
            },
            _ => true,
        },
        poll_verdict(
            sandbox_id@,
            deadline_ms as nat,
            budget_ms as nat,
            elapsed_ms as nat,
            response_at_ms as nat,
            poll,
        ) matches Ok(last) ==> {
            let remaining = provisioning_remaining_spec(
                sandbox_id@,
                elapsed_ms as nat,
                observed_at_ms as nat,
                deadline_ms as nat,
            );
            if remaining == 0 {
                r matches WaitStep::Finished(WaitOutcome::TimedOut(m)) && m@ == not_online_message_spec(
                    sandbox_id@,
                    deadline_ms as nat,
                    last,
                )
            } else {
                r matches WaitStep::Sleep { delay_ms, last_error } && opt_view(last_error) == last
                    && delay_ms == (if remaining < POLL_INTERVAL_MS {
                    remaining
                } else {
                    POLL_INTERVAL_MS as nat
                })
            }
        },
{
    let ghost p = poll;
    let last_error: Option<String> = match poll {
        SandboxPoll::RequestTimedOut => {
            let mut m = owned("sandbox status request timed out after ");
            push_decimal(&mut m, budget_ms / 1000);
            push_str(&mut m, "s");
            Some(m)
        },
        SandboxPoll::ApiError(e) => Some(e),
        SandboxPoll::NotFound => {
            let mut m = owned("Box ");
            push_str(&mut m, sandbox_id);
            push_str(
                &mut m,
                " disappeared after it was created (the API returned 404). This is a terminal provisioning failure on an older server.",
            );
            return WaitStep::Failed(m);
        },
        SandboxPoll::Answered(sandbox) => {
            if str_eq(sandbox.status.as_str(), "failed") {
                return WaitStep::Finished(WaitOutcome::Failed(failed_sandbox_message(&sandbox)));
            }
            if provisioning_timed_out(sandbox_id, elapsed_ms, response_at_ms, deadline_ms) {
                return WaitStep::Finished(
                    WaitOutcome::TimedOut(not_online_message(sandbox_id, deadline_ms, &None)),
                );
            }
            if str_eq(sandbox.status.as_str(), "online") && sandbox.ssh_hostname.is_some()
                && sandbox.ssh_port.is_some() && sandbox.ssh_username.is_some() {
                return WaitStep::Finished(WaitOutcome::Online(Box::new(sandbox)));
            }
            if str_eq(sandbox.status.as_str(), "offline") || str_eq(sandbox.status.as_str(), "dead") {
                let mut m = owned("Box ");
                push_str(&mut m, sandbox_id);
                push_str(&mut m, " went ");
                push_str(&mut m, sandbox.status.as_str());
                push_str(&mut m, " while provisioning");
                if let Some(w) = &sandbox.provision_warnings {
                    push_str(&mut m, ": ");
                    push_str(&mut m, w.as_str());
                }
                push_str(&mut m, ".");
                proof {
                    if sandbox.provision_warnings is None {
                        assert(m@ =~= went_down_message(sandbox_id@, sandbox));
                    }
                }
                return WaitStep::Failed(m);
            }
            None
        },
    };
    assert(poll_verdict(
        sandbox_id@,
        deadline_ms as nat,
        budget_ms as nat,
        elapsed_ms as nat,
        response_at_ms as nat,
        p,
    ) == Ok::<Option<Seq<char>>, ()>(opt_view(last_error)));
    let remaining = provisioning_remaining(sandbox_id, elapsed_ms, observed_at_ms, deadline_ms);
    if remaining == 0 {
        return WaitStep::Finished(
            WaitOutcome::TimedOut(not_online_message(sandbox_id, deadline_ms, &last_error)),
        );
    }
    WaitStep::Sleep {
        delay_ms: if remaining < POLL_INTERVAL_MS {
            remaining
        } else {
            POLL_INTERVAL_MS
        },
        last_error,
    }
}

} // verus!
