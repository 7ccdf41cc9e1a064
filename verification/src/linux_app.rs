//! Self-update of the Linux desktop app. The release's published SHA-256 is
//! the only gate before an unattended swap of the app directory; this module
//! holds that check, the rewrite of the launcher's `Exec` line to the
//! installed path, and which directory names are leftovers of an
//! interrupted update. Downloading, extracting and renaming are I/O.

use sha2::Digest;
use vstd::prelude::*;

use crate::text::{
    hex_of, is_prefix, join, join_with, lines, lines_of, lower_hex, lower_seq, owned,
    push_decimal, push_str, starts_with, str_eq, to_ascii_lowercase, trim, trim_seq, views,
    decimal,
};

verus! {

/// The release asset that describes the published app build.
pub const MANIFEST_ASSET: &'static str = "linux-app.json";

/// The published description of an app build.
pub struct AppManifest {
    pub version: String,
    /// The release tag the asset is pinned to.
    pub tag: String,
    pub asset: String,
    pub sha256: String,
}

/// The SHA-256 digest of a byte string.
pub uninterp spec fn sha256_of(data: Seq<u8>) -> Seq<u8>;

/// Calls `sha2::Sha256::digest`, which returns the 32-byte SHA-256 digest of
/// `data`.
#[verifier::external_body]
fn sha256_digest(data: &[u8]) -> (r: Vec<u8>)
    ensures
        r@ == sha256_of(data@),
        r@.len() == 32,
{
    sha2::Sha256::digest(data).to_vec()
}

/// The lower-case hexadecimal SHA-256 of a downloaded archive.
pub fn archive_digest(archive: &[u8]) -> (r: String)
    ensures
        r@ == hex_of(sha256_of(archive@)),
        r@.len() == 64,
{
    let d = sha256_digest(archive);
    proof {
        crate::text::lemma_hex_len(d@);
    }
    lower_hex(d.as_slice())
}

/// ASCII case-insensitive equality.
pub open spec fn eq_ignore_ascii_case(a: Seq<char>, b: Seq<char>) -> bool {
    lower_seq(a) == lower_seq(b)
}

/// Whether a computed digest matches the published checksum, ignoring ASCII
/// case and the whitespace around the published value.
pub fn checksum_matches(digest: &str, published: &str) -> (r: bool)
    ensures
        r == eq_ignore_ascii_case(digest@, trim_seq(published@)),
{
    let p = trim(published);
    let a = to_ascii_lowercase(digest);
    let b = to_ascii_lowercase(p.as_str());
    str_eq(a.as_str(), b.as_str())
}

/// The refusal when a download does not match its published checksum.
pub open spec fn checksum_mismatch_message(m: AppManifest, digest: Seq<char>) -> Seq<char> {
    "The downloaded "@ + m.asset@ + " does not match the checksum published for "@ + m.tag@
        + " (expected "@ + trim_seq(m.sha256@) + ", got "@ + digest + "). Nothing was installed."@
}

/// Checks a downloaded archive against the manifest's checksum.
pub fn verify_archive(manifest: &AppManifest, archive: &[u8]) -> (r: Result<(), String>)
    ensures
        r is Ok <==> eq_ignore_ascii_case(hex_of(sha256_of(archive@)), trim_seq(manifest.sha256@)),
        r matches Err(m) ==> m@ == checksum_mismatch_message(
            *manifest,
            hex_of(sha256_of(archive@)),
        ),
{
    let digest = archive_digest(archive);
    if checksum_matches(digest.as_str(), manifest.sha256.as_str()) {
        return Ok(());
    }
    let mut m = owned("The downloaded ");
    push_str(&mut m, manifest.asset.as_str());
    push_str(&mut m, " does not match the checksum published for ");
    push_str(&mut m, manifest.tag.as_str());
    push_str(&mut m, " (expected ");
    let expected = trim(manifest.sha256.as_str());
    push_str(&mut m, expected.as_str());
    push_str(&mut m, ", got ");
    push_str(&mut m, digest.as_str());
    push_str(&mut m, "). Nothing was installed.");
    Err(m)
}

/// The refusal when the manifest request failed with an HTTP status.
pub open spec fn manifest_failure_message(status: u16, reason: Seq<char>) -> Seq<char> {
    "App manifest request failed ("@ + decimal(status as nat) + " "@ + reason + ")"@
}

/// The refusal when the manifest request failed with an HTTP status and its
/// canonical reason phrase (empty when it has none).
pub fn manifest_failure(status: u16, reason: &str) -> (r: String)
    ensures
        r@ == manifest_failure_message(status, reason@),
{
    let mut m = owned("App manifest request failed (");
    push_decimal(&mut m, status as u64);
    push_str(&mut m, " ");
    push_str(&mut m, reason);
    push_str(&mut m, ")");
    m
}

// ---------------------------------------------------------------------------
// The launcher entry
// ---------------------------------------------------------------------------

/// The `Exec` line of the launcher for an app installed at `root`.
pub open spec fn exec_line(root: Seq<char>) -> Seq<char> {
    "Exec="@ + root + "/bin/openresearch"@
}

/// One line of the rewritten launcher entry.
pub open spec fn rewritten_line(line: Seq<char>, root: Seq<char>) -> Seq<char> {
    if is_prefix("Exec="@, line) {
        exec_line(root)
    } else {
        line
    }
}

/// The launcher entry with every `Exec=` line pointing at the installed
/// binary, lines joined by `\n`.
pub open spec fn rewritten_entry(text: Seq<char>, root: Seq<char>) -> Seq<char> {
    join_with(lines_of(text).map_values(|l: Seq<char>| rewritten_line(l, root)), "\n"@)
}

/// Points the launcher entry's `Exec` lines at `root/bin/openresearch`.
pub fn rewrite_desktop_exec_text(text: &str, root: &str) -> (r: String)
    ensures
        r@ == rewritten_entry(text@, root@),
{
    let ls = lines(text);
    let mut out: Vec<String> = Vec::new();
    let mut i: usize = 0;
    while i < ls.len()
        invariant
            i <= ls.len(),
            views(ls@) == lines_of(text@),
            out@.len() == i,
            views(out@) == views(ls@).take(i as int).map_values(
                |l: Seq<char>| rewritten_line(l, root@),
            ),
        decreases ls.len() - i,
    {
        let ghost li = ls@[i as int]@;
        let ghost prev = views(out@);
        assert(views(ls@)[i as int] == li);
        if starts_with(ls[i].as_str(), "Exec=") {
            let mut e = owned("Exec=");
            push_str(&mut e, root);
            push_str(&mut e, "/bin/openresearch");
            assert(e@ == rewritten_line(li, root@));
            out.push(e);
        } else {
            let c = ls[i].clone();
            assert(c@ == rewritten_line(li, root@));
            out.push(c);
        }
        assert(views(out@) =~= prev.push(rewritten_line(li, root@)));
        assert(views(ls@).take(i + 1).map_values(|l: Seq<char>| rewritten_line(l, root@))
            =~= views(ls@).take(i as int).map_values(|l: Seq<char>| rewritten_line(l, root@)).push(
            rewritten_line(li, root@),
        ));
        assert(views(out@) =~= views(ls@).take(i + 1).map_values(
            |l: Seq<char>| rewritten_line(l, root@),
        ));
        i = i + 1;
    }
    assert(views(ls@).take(ls@.len() as int) =~= views(ls@));
    join(&out, "\n")
}

/// Whether a directory next to the app is left over from an interrupted
/// update: a staging or backup directory that is not the app itself.
pub fn is_update_leftover(name: &str, is_app_root: bool) -> (r: bool)
    ensures
        r == ((is_prefix(".openresearch-update-"@, name@) || is_prefix(
            ".openresearch-old-"@,
            name@,
        )) && !is_app_root),
{
    (starts_with(name, ".openresearch-update-") || starts_with(name, ".openresearch-old-"))
        && !is_app_root
}

} // verus!
