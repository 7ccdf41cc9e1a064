//! Small platform decisions: which program opens a URL in the browser,
//! which dialogs report a failed start, and how the PATH a login shell
//! printed is fenced out of its chatter.

use vstd::prelude::*;

use crate::text::{chars_of, find_from, occurs_at, owned, string_of_range, views};

verus! {

/// The operating systems the tool distinguishes.
#[derive(Debug, Clone, Copy, PartialEq, Eq, Structural)]
pub enum Platform {
    MacOs,
    Windows,
    Other,
}

/// The arguments Windows' `rundll32.exe` gets to open a URL: the handler,
/// then the URL as one argument, query string and all.
pub fn windows_browser_args(url: &str) -> (r: [&str; 2])
    ensures
        r[0]@ == "url.dll,FileProtocolHandler"@,
        r[1] == url,
{
    ["url.dll,FileProtocolHandler", url]
}

/// The program that opens a URL in the default browser: `open` on macOS,
/// `rundll32.exe` on Windows, `xdg-open` elsewhere.
pub open spec fn browser_program(p: Platform) -> Seq<char> {
    match p {
        Platform::MacOs => "open"@,
        Platform::Windows => "rundll32.exe"@,
        Platform::Other => "xdg-open"@,
    }
}

/// The program and arguments that open `url` in the default browser.
pub fn browser_command(platform: Platform, url: &str) -> (r: (String, Vec<String>))
    ensures
        r.0@ == browser_program(platform),
        platform is Windows ==> r.1@.len() == 2 && r.1@[0]@ == "url.dll,FileProtocolHandler"@
            && r.1@[1]@ == url@,
        !(platform is Windows) ==> r.1@.len() == 1 && r.1@[0]@ == url@,
{
    match platform {
        Platform::MacOs => (owned("open"), vec![owned(url)]),
        Platform::Windows => {
            let a = windows_browser_args(url);
            (owned("rundll32.exe"), vec![owned(a[0]), owned(a[1])])
        },
        Platform::Other => (owned("xdg-open"), vec![owned(url)]),
    }
}

// ---------------------------------------------------------------------------
// Reporting a failed start
// ---------------------------------------------------------------------------

/// A program that shows an error dialog: its arguments, and one variable
/// set in its environment where the message travels that way.
pub struct DialogCommand {
    pub program: String,
    pub args: Vec<String>,
    pub env: Option<(String, String)>,
}

/// The title of the dialog.
pub open spec fn dialog_title() -> Seq<char> {
    "OpenResearch could not start"@
}

/// The view of a dialog command.
pub open spec fn dialog_view(c: DialogCommand) -> (Seq<char>, Seq<Seq<char>>, Option<(Seq<char>, Seq<char>)>) {
    (c.program@, views(c.args@), match c.env {
        Some(e) => Some((e.0@, e.1@)),
        None => None,
    })
}

/// The dialogs that report `message`, to be tried in order until one
/// succeeds: on Linux and the like zenity, kdialog, xmessage, then a
/// critical notification; on macOS an AppleScript alert; on Windows a
/// PowerShell message box that reads the message from its environment.
pub open spec fn error_dialogs(p: Platform, message: Seq<char>) -> Seq<
    (Seq<char>, Seq<Seq<char>>, Option<(Seq<char>, Seq<char>)>),
> {
    match p {
        Platform::Other => seq![
            ("zenity"@, seq!["--error"@, "--title="@ + dialog_title(), "--text"@, message], None),
            ("kdialog"@, seq!["--error"@, message, "--title"@, dialog_title()], None),
            ("xmessage"@, seq!["-center"@, message], None),
            ("notify-send"@, seq!["--urgency=critical"@, dialog_title(), message], None),
        ],
        Platform::MacOs => seq![
            (
                "osascript"@,
                seq![
                    "-e"@,
                    "on run argv"@,
                    "-e"@,
                    "display alert \"OpenResearch could not start\" message (item 1 of argv) as critical"@,
                    "-e"@,
                    "end run"@,
                    "--"@,
                    message,
                ],
                None,
            ),
        ],
        Platform::Windows => seq![
            (
                "powershell.exe"@,
                seq![
                    "-NoProfile"@,
                    "-NonInteractive"@,
                    "-WindowStyle"@,
                    "Hidden"@,
                    "-Command"@,
                    "Add-Type -AssemblyName PresentationFramework; [System.Windows.MessageBox]::Show($env:ORX_DESKTOP_ERROR, 'OpenResearch could not start')"@,
                ],
                Some(("ORX_DESKTOP_ERROR"@, message)),
            ),
        ],
    }
}

/// Owned copies of some texts.
fn owned_all(v: Vec<&str>) -> (r: Vec<String>)
    ensures
        views(r@) == v@.map_values(|s: &str| s@),
{
    let mut out: Vec<String> = Vec::new();
    let mut i: usize = 0;
    while i < v.len()
        invariant
            i <= v@.len(),
            views(out@) == v@.take(i as int).map_values(|s: &str| s@),
        decreases v@.len() - i,
    {
        let ghost prev = views(out@);
        out.push(owned(v[i]));
        assert(views(out@) =~= prev.push(v@[i as int]@));
        assert(v@.take(i + 1).map_values(|s: &str| s@) =~= v@.take(i as int).map_values(|s: &str| s@).push(
            v@[i as int]@,
        ));
        i = i + 1;
    }
    assert(v@.take(v@.len() as int) =~= v@);
    out
}

/// A dialog command.
fn dialog(program: &str, args: Vec<&str>, env: Option<(&str, &str)>) -> (r: DialogCommand)
    ensures
        r.program@ == program@,
        views(r.args@) == args@.map_values(|s: &str| s@),
        match env {
            Some(e) => r.env matches Some(x) && x.0@ == e.0@ && x.1@ == e.1@,
            None => r.env is None,
        },
{
    let env = match env {
        Some((k, v)) => Some((owned(k), owned(v))),
        None => None,
    };
    DialogCommand { program: owned(program), args: owned_all(args), env }
}

/// The dialogs that report a failed start, in the order to try them.
pub fn error_dialog_commands(platform: Platform, message: &str) -> (r: Vec<DialogCommand>)
    ensures
        r@.map_values(|c: DialogCommand| dialog_view(c)) == error_dialogs(platform, message@),
{
    let ghost e = error_dialogs(platform, message@);
    let mut out: Vec<DialogCommand> = Vec::new();
    match platform {
        Platform::Other => {
            let title_flag = "--title=OpenResearch could not start";
            proof {
                reveal_strlit("--title=OpenResearch could not start");
                reveal_strlit("--title=");
                reveal_strlit("OpenResearch could not start");
                assert(title_flag@ =~= "--title="@ + dialog_title());
            }
            let a = vec!["--error", title_flag, "--text", message];
            assert(a@.map_values(|s: &str| s@) =~= e[0].1);
            out.push(dialog("zenity", a, None));
            let a = vec!["--error", message, "--title", "OpenResearch could not start"];
            assert(a@.map_values(|s: &str| s@) =~= e[1].1);
            out.push(dialog("kdialog", a, None));
            let a = vec!["-center", message];
            assert(a@.map_values(|s: &str| s@) =~= e[2].1);
            out.push(dialog("xmessage", a, None));
            let a = vec!["--urgency=critical", "OpenResearch could not start", message];
            assert(a@.map_values(|s: &str| s@) =~= e[3].1);
            out.push(dialog("notify-send", a, None));
        },
        Platform::MacOs => {
            let a = vec![
                "-e",
                "on run argv",
                "-e",
                "display alert \"OpenResearch could not start\" message (item 1 of argv) as critical",
                "-e",
                "end run",
                "--",
                message,
            ];
            assert(a@.map_values(|s: &str| s@) =~= e[0].1);
            out.push(dialog("osascript", a, None));
        },
        Platform::Windows => {
            let a = vec![
                "-NoProfile",
                "-NonInteractive",
                "-WindowStyle",
                "Hidden",
                "-Command",
                "Add-Type -AssemblyName PresentationFramework; [System.Windows.MessageBox]::Show($env:ORX_DESKTOP_ERROR, 'OpenResearch could not start')",
            ];
            assert(a@.map_values(|s: &str| s@) =~= e[0].1);
            out.push(dialog("powershell.exe", a, Some(("ORX_DESKTOP_ERROR", message))));
        },
    }
    assert(out@.map_values(|c: DialogCommand| dialog_view(c)) =~= e);
    out
}

// ---------------------------------------------------------------------------
// The PATH a shell probe printed
// ---------------------------------------------------------------------------

/// One of the directories of a `:`-separated list is absolute: some `/`
/// starts the list or follows a `:`.
pub open spec fn names_absolute_dir(path: Seq<char>) -> bool {
    exists|j: int| 0 <= j < path.len() && #[trigger] path[j] == '/' && (j == 0 || path[j - 1] == ':')
}

/// The first occurrence of `marker` in `s` at or after `from`.
pub open spec fn first_from(s: Seq<char>, marker: Seq<char>, from: int) -> Option<int> {
    if exists|j: int| from <= j && #[trigger] occurs_at(s, marker, j) {
        Some(
            choose|j: int|
                from <= j && #[trigger] occurs_at(s, marker, j) && forall|x: int|
                    from <= x < j ==> !occurs_at(s, marker, x),
        )
    } else {
        None
    }
}

/// The text between the first two occurrences of `marker`, when the second
/// one arrived.
pub open spec fn fenced(stdout: Seq<char>, marker: Seq<char>) -> Option<Seq<char>> {
    match first_from(stdout, marker, 0) {
        Some(i) => match first_from(stdout, marker, i + marker.len()) {
            Some(k) => Some(stdout.subrange(i + marker.len(), k)),
            None => None,
        },
        None => None,
    }
}

/// The earliest occurrence found is the one `first_from` names.
proof fn lemma_first_from_is(s: Seq<char>, marker: Seq<char>, from: int, i: int)
    requires
        from <= i,
        occurs_at(s, marker, i),
        forall|x: int| from <= x < i ==> !occurs_at(s, marker, x),
    ensures
        first_from(s, marker, from) == Some(i),
{
    let c = choose|j: int|
        from <= j && #[trigger] occurs_at(s, marker, j) && forall|x: int|
            from <= x < j ==> !occurs_at(s, marker, x);
    assert(from <= c && occurs_at(s, marker, c));
    if c < i {
        assert(!occurs_at(s, marker, c));
    } else if c > i {
        assert(!occurs_at(s, marker, i));
    }
}

/// The PATH a shell probe fenced between two markers: present only when the
/// closing marker arrived and the capture names at least one absolute
/// directory (which rejects empty or garbage captures).
pub open spec fn extracted_path(stdout: Seq<char>, marker: Seq<char>) -> Option<Seq<char>> {
    if marker.len() == 0 {
        // Splitting at the empty string yields each character on its own.
        if stdout.len() > 0 && stdout[0] == '/' {
            Some(stdout.take(1))
        } else {
            None
        }
    } else {
        match fenced(stdout, marker) {
        Some(path) => if names_absolute_dir(path) {
            Some(path)
        } else {
            None
        },
        None => None,
    }
    }
}

/// Whether a `:`-separated list names an absolute directory.
fn has_absolute_dir(v: &Vec<char>, lo: usize, hi: usize) -> (r: bool)
    requires
        lo <= hi <= v.len(),
    ensures
        r == names_absolute_dir(v@.subrange(lo as int, hi as int)),
{
    let ghost path = v@.subrange(lo as int, hi as int);
    let mut j: usize = lo;
    while j < hi
        invariant
            lo <= j <= hi <= v.len(),
            path == v@.subrange(lo as int, hi as int),
            forall|x: int|
                0 <= x < j - lo ==> !(#[trigger] path[x] == '/' && (x == 0 || path[x - 1] == ':')),
        decreases hi - j,
    {
        if v[j] == '/' && (j == lo || v[j - 1] == ':') {
            assert(path[j - lo] == '/');
            return true;
        }
        j = j + 1;
    }
    false
}

/// The PATH a shell probe fenced between two occurrences of `marker`.
pub fn extract_path(stdout: &str, marker: &str) -> (r: Option<String>)
    ensures
        match r {
            Some(p) => extracted_path(stdout@, marker@) == Some(p@),
            None => extracted_path(stdout@, marker@) is None,
        },
{
    let v = chars_of(stdout);
    let m = chars_of(marker);
    if m.len() == 0 {
        if v.len() > 0 && v[0] == '/' {
            return Some(string_of_range(&v, 0, 1));
        }
        return None;
    }
    let i = match find_from(&v, &m, 0) {
        Some(i) => i,
        None => {
            assert(first_from(stdout@, marker@, 0) is None);
            return None;
        },
    };
    proof {
        lemma_first_from_is(stdout@, marker@, 0, i as int);
    }
    assert(occurs_at(v@, m@, i as int));
    let vl = v.len();
    assert(i + m@.len() <= vl);
    let start = i + m.len();
    let k = match find_from(&v, &m, start) {
        Some(k) => k,
        None => {
            assert(first_from(stdout@, marker@, start as int) is None);
            return None;
        },
    };
    proof {
        lemma_first_from_is(stdout@, marker@, start as int, k as int);
    }
    if has_absolute_dir(&v, start, k) {
        Some(string_of_range(&v, start, k))
    } else {
        None
    }
}

} // verus!
