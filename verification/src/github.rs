//! Publication of a project to GitHub: when a clone is made shallow, which
//! repository names are tried, and how the REST API's answers are read.

use vstd::prelude::*;

use crate::text::{decimal, owned, push_char, push_decimal, push_str};

verus! {

/// Repositories at least this large (in KiB, as GitHub reports `size`) are
/// cloned shallow: 250 MiB.
pub const SHALLOW_CLONE_THRESHOLD_KB: u64 = 256000;

/// Whether a repository of the reported size is cloned shallow. An unknown
/// size never is.
pub fn should_shallow_clone(size_kb: Option<u64>) -> (r: bool)
    ensures
        r == (size_kb matches Some(size) && size >= SHALLOW_CLONE_THRESHOLD_KB),
{
    match size_kb {
        Some(size) => size >= SHALLOW_CLONE_THRESHOLD_KB,
        None => false,
    }
}

/// How many names are tried before publication gives up.
pub const MAX_NAME_ATTEMPTS: u64 = 100;

/// The repository name tried at attempt `suffix` (counting from 1): the
/// name itself first, then `name-2`, `name-3`, ...
pub open spec fn repo_candidate_spec(repo: Seq<char>, suffix: nat) -> Seq<char> {
    if suffix == 1 {
        repo
    } else {
        repo + "-"@ + decimal(suffix)
    }
}

/// The repository name tried at attempt `suffix`.
pub fn repo_candidate(repo: &str, suffix: u64) -> (r: String)
    requires
        1 <= suffix,
    ensures
        r@ == repo_candidate_spec(repo@, suffix as nat),
{
    let mut out = owned(repo);
    if suffix != 1 {
        push_char(&mut out, '-');
        push_decimal(&mut out, suffix);
        proof {
            reveal_strlit("-");
            assert(out@ =~= repo@ + "-"@ + decimal(suffix as nat));
        }
    }
    out
}

/// The attempt after a name was found taken: the next suffix, or `None`
/// once every attempt is used up.
pub fn next_name_attempt(suffix: u64) -> (r: Option<u64>)
    ensures
        r == (if suffix < MAX_NAME_ATTEMPTS {
            Some((suffix + 1) as u64)
        } else {
            None::<u64>
        }),
{
    if suffix < MAX_NAME_ATTEMPTS {
        Some(suffix + 1)
    } else {
        None
    }
}

/// The error when every candidate name was taken.
pub open spec fn no_name_message(repo: Seq<char>) -> Seq<char> {
    "Could not find an available GitHub repository name for '"@ + repo + "'."@
}

/// The error when every candidate name was taken.
pub fn no_available_name_message(repo: &str) -> (r: String)
    ensures
        r@ == no_name_message(repo@),
{
    let mut out = owned("Could not find an available GitHub repository name for '");
    push_str(&mut out, repo);
    push_str(&mut out, "'.");
    out
}

// ---------------------------------------------------------------------------
// Percent-encoding of path segments
// ---------------------------------------------------------------------------

/// A byte that percent-encoding leaves as it is: ASCII alphanumerics and
/// `-`, `.`, `_`, `~`.
pub open spec fn url_safe_byte(b: u8) -> bool {
    (48 <= b <= 57) || (65 <= b <= 90) || (97 <= b <= 122) || b == 45 || b == 46 || b == 95
        || b == 126
}

/// The upper-case hexadecimal digit of a nibble.
pub open spec fn upper_hex_digit(n: u8) -> char {
    if n < 10 {
        (n + 48) as char
    } else {
        (n + 55) as char
    }
}

/// The percent-encoding of a byte string: safe bytes as themselves, every
/// other byte as `%` and two upper-case hexadecimal digits.
pub open spec fn percent_encoded(bytes: Seq<u8>) -> Seq<char>
    decreases bytes.len(),
{
    if bytes.len() == 0 {
        Seq::empty()
    } else {
        let b = bytes.last();
        percent_encoded(bytes.drop_last()) + if url_safe_byte(b) {
            seq![b as char]
        } else {
            seq!['%', upper_hex_digit(b / 16), upper_hex_digit(b % 16)]
        }
    }
}

/// Calls `urlencoding::encode`, which percent-encodes the UTF-8 bytes of
/// `s`: every byte but ASCII alphanumerics and `-`, `_`, `.`, `~` becomes `%`
/// followed by two upper-case hexadecimal digits.
#[verifier::external_body]
fn url_encode(s: &str) -> (r: String)
    ensures
        r@ == percent_encoded(vstd::utf8::encode_utf8(s@)),
{
    urlencoding::encode(s).into_owned()
}

/// The REST endpoint of one repository.
pub open spec fn repo_api_url_spec(owner: &str, repo: &str) -> Seq<char> {
    "https://api.github.com/repos/"@ + percent_encoded(vstd::utf8::encode_utf8(owner@)) + "/"@
        + percent_encoded(vstd::utf8::encode_utf8(repo@))
}

/// The REST endpoint of one repository, owner and name percent-encoded.
pub fn repo_api_url(owner: &str, repo: &str) -> (r: String)
    ensures
        r@ == repo_api_url_spec(owner, repo),
{
    let mut out = owned("https://api.github.com/repos/");
    let o = url_encode(owner);
    push_str(&mut out, o.as_str());
    push_char(&mut out, '/');
    let n = url_encode(repo);
    push_str(&mut out, n.as_str());
    proof {
        reveal_strlit("/");
        assert(out@ =~= repo_api_url_spec(owner, repo));
    }
    out
}

// ---------------------------------------------------------------------------
// Reading the API's answers
// ---------------------------------------------------------------------------

/// What the project needs to know of an existing repository.
pub struct RepoMeta {
    pub can_push: bool,
    pub archived: bool,
}

/// The metadata of a repository from the lookup's status and the body's
/// `permissions.push` and `archived` fields: `None` unless the lookup
/// succeeded (2xx); absent flags read as `false`.
pub fn repo_meta_from(status: u16, push: Option<bool>, archived: Option<bool>) -> (r: Option<
    RepoMeta,
>)
    ensures
        r is Some <==> (200 <= status < 300),
        r matches Some(m) ==> m.can_push == (push == Some(true)) && m.archived == (archived
            == Some(true)),
{
    if 200 <= status && status < 300 {
        Some(
            RepoMeta {
                can_push: match push {
                    Some(b) => b,
                    None => false,
                },
                archived: match archived {
                    Some(b) => b,
                    None => false,
                },
            },
        )
    } else {
        None
    }
}

/// The signed-in account's login from the `/user` answer: present only on
/// success and when non-empty.
pub open spec fn viewer_login_spec(status: u16, login: Option<&str>) -> Option<Seq<char>> {
    if 200 <= status < 300 {
        match login {
            Some(x) => if x@.len() > 0 {
                Some(x@)
            } else {
                None
            },
            None => None,
        }
    } else {
        None
    }
}

/// The signed-in account's login from the `/user` answer.
pub fn viewer_login_from(status: u16, login: Option<&str>) -> (r: Option<String>)
    ensures
        match r {
            Some(l) => viewer_login_spec(status, login) == Some(l@),
            None => viewer_login_spec(status, login) is None,
        },
{
    if !(200 <= status && status < 300) {
        return None;
    }
    match login {
        Some(l) => {
            if l.is_empty() {
                None
            } else {
                Some(owned(l))
            }
        },
        None => None,
    }
}

/// Why creating a repository failed.
pub enum CreateRepoError {
    /// The name is already taken; the next candidate is tried.
    NameExists,
    /// Any other failure, with its message.
    Failed(String),
}

/// The fields of a create-repository answer that decide its outcome.
pub struct CreateRepoReply {
    pub status: u16,
    /// The status as the HTTP client prints it (`422 Unprocessable Entity`).
    pub status_text: String,
    /// `errors[0].code` and `errors[0].message` of a 422 answer.
    pub error_code: Option<String>,
    pub error_detail: Option<String>,
    /// `message` of another failure.
    pub message: Option<String>,
    /// `owner.login`, `name` and `default_branch` of a success.
    pub owner_login: Option<String>,
    pub name: Option<String>,
    pub default_branch: Option<String>,
}

/// Whether `s` contains `p` ignoring ASCII case of `s`.
pub open spec fn mentions_taken(detail: Seq<char>) -> bool {
    crate::text::contains_seq(crate::text::lower_seq(detail), "already exists"@)
}

/// The detail of a 422 answer, defaulted.
pub open spec fn unprocessable_detail(reply: CreateRepoReply) -> Seq<char> {
    match reply.error_detail {
        Some(d) => d@,
        None => "invalid repository name"@,
    }
}

/// The outcome of a create-repository call, from its answer.
pub open spec fn create_outcome_spec(repo: Seq<char>, reply: CreateRepoReply) -> Result<
    (Seq<char>, Seq<char>, Seq<char>),
    Option<Seq<char>>,
> {
    if reply.status == 422 {
        if (reply.error_code matches Some(c) && c@ == "already_exists"@) || mentions_taken(
            unprocessable_detail(reply),
        ) {
            Err(None)
        } else {
            Err(Some("Could not create '"@ + repo + "': "@ + unprocessable_detail(reply) + "."@))
        }
    } else if !(200 <= reply.status < 300) {
        Err(
            Some(
                "GitHub repo create failed ("@ + reply.status_text@ + "): "@ + match reply.message {
                    Some(m) => m@,
                    None => "unknown error"@,
                },
            ),
        )
    } else {
        match reply.owner_login {
            None => Err(Some("GitHub response missing owner login"@)),
            Some(owner) => Ok(
                (
                    owner@,
                    match reply.name {
                        Some(n) => n@,
                        None => repo,
                    },
                    match reply.default_branch {
                        Some(b) => b@,
                        None => "main"@,
                    },
                ),
            ),
        }
    }
}

/// A copy of an optional string, or the default.
fn or_default(o: &Option<String>, default: &str) -> (r: String)
    ensures
        r@ == (match o {
            Some(s) => s@,
            None => default@,
        }),
{
    match o {
        Some(s) => s.clone(),
        None => owned(default),
    }
}

/// Reads a create-repository answer: the owner, name and default branch of
/// the new repository, or why it was not created.
pub fn create_repo_outcome(repo: &str, reply: &CreateRepoReply) -> (r: Result<
    (String, String, String),
    CreateRepoError,
>)
    ensures
        match (r, create_outcome_spec(repo@, *reply)) {
            (Ok((o, n, b)), Ok((so, sn, sb))) => o@ == so && n@ == sn && b@ == sb,
            (Err(CreateRepoError::NameExists), Err(None)) => true,
            (Err(CreateRepoError::Failed(m)), Err(Some(sm))) => m@ == sm,
            _ => false,
        },
{
    if reply.status == 422 {
        let detail = or_default(&reply.error_detail, "invalid repository name");
        let code_taken = match &reply.error_code {
            Some(c) => crate::text::str_eq(c.as_str(), "already_exists"),
            None => false,
        };
        let lower = crate::text::to_ascii_lowercase(detail.as_str());
        if code_taken || crate::text::contains_str(lower.as_str(), "already exists") {
            return Err(CreateRepoError::NameExists);
        }
        let mut m = owned("Could not create '");
        push_str(&mut m, repo);
        push_str(&mut m, "': ");
        push_str(&mut m, detail.as_str());
        push_str(&mut m, ".");
        return Err(CreateRepoError::Failed(m));
    }
    if !(200 <= reply.status && reply.status < 300) {
        let mut m = owned("GitHub repo create failed (");
        push_str(&mut m, reply.status_text.as_str());
        push_str(&mut m, "): ");
        let message = or_default(&reply.message, "unknown error");
        push_str(&mut m, message.as_str());
        return Err(CreateRepoError::Failed(m));
    }
    match &reply.owner_login {
        None => Err(CreateRepoError::Failed(owned("GitHub response missing owner login"))),
        Some(owner) => {
            let name = match &reply.name {
                Some(n) => n.clone(),
                None => owned(repo),
            };
            let branch = or_default(&reply.default_branch, "main");
            Ok((owner.clone(), name, branch))
        },
    }
}

} // verus!
