//! Shell integration: which shell a command names, the init script that
//! makes it print OSC 133 markers, and how the shell is started so that it
//! runs that script.
use vstd::prelude::*;

use crate::text::{chars_of, same_text, string_from_chars};

verus! {

/// The shells that have an integration script.
#[derive(Debug, Clone, Copy, PartialEq, Eq, Structural)]
pub enum ShellKind {
    Pwsh,
    Bash,
    Zsh,
    Fish,
}

/// Shell integration init scripts per shell.
pub struct ShellIntegration;

pub const PWSH_INIT: &'static str = r#"
# termsnoop shell integration (OSC 133)
# Uses history tracking to only emit D markers after actual command execution,
# avoiding false triggers from prompt redraws (starship, oh-my-posh, etc.)

$__termsnoop_orig_prompt = $function:prompt
$global:__termsnoop_last_hist_id = -1

function prompt {
    $__tsExit = if ($global:?) { 0 } else { if ($global:LASTEXITCODE) { $global:LASTEXITCODE } else { 1 } }
    $curHist = (Get-History -Count 1 -ErrorAction SilentlyContinue)
    $curId = if ($curHist) { $curHist.Id } else { 0 }

    # Only emit D when a new command was actually executed (history ID advanced)
    if ($curId -gt $global:__termsnoop_last_hist_id -and $global:__termsnoop_last_hist_id -ge 0) {
        [Console]::Write("`e]133;D;$__tsExit`a")
    }
    $global:__termsnoop_last_hist_id = $curId

    # A: prompt start
    [Console]::Write("`e]133;A`a")
    $result = & $__termsnoop_orig_prompt
    # B embedded in return value so it appears after all prompt text
    if ($result) { return "$result`e]133;B`a" } else { return "`e]133;B`a" }
}
"#;

pub const BASH_INIT: &'static str = r#"
# termsnoop shell integration (OSC 133)
__termsnoop_preexec() {
    printf '\e]133;C\a'
}
trap '__termsnoop_preexec' DEBUG

__termsnoop_orig_ps1="$PS1"
PS1='\[\e]133;D;$?\a\]\[\e]133;A\a\]'"$__termsnoop_orig_ps1"'\[\e]133;B\a\]'
"#;

pub const ZSH_INIT: &'static str = r#"
# termsnoop shell integration (OSC 133)
__termsnoop_precmd() {
    print -Pn "\e]133;D;$?\a"
    print -Pn "\e]133;A\a"
}

__termsnoop_preexec() {
    print -Pn "\e]133;C\a"
}

precmd_functions+=(__termsnoop_precmd)
preexec_functions+=(__termsnoop_preexec)

# Append B marker after prompt
PS1="$PS1%{\e]133;B\a%}"
"#;

pub const FISH_INIT: &'static str = r#"
# termsnoop shell integration (OSC 133)
function __termsnoop_prompt --on-event fish_prompt
    set -l last $status
    printf "\e]133;D;%s\a" $last
    printf "\e]133;A\a"
end

function __termsnoop_postprompt --on-event fish_postexec
    # intentionally empty — just needed for event registration
end

# Wrap the existing fish_prompt to append B marker
functions -c fish_prompt __termsnoop_orig_prompt 2>/dev/null
function fish_prompt
    __termsnoop_orig_prompt
    printf "\e]133;B\a"
end

function __termsnoop_preexec --on-event fish_preexec
    printf "\e]133;C\a"
end
"#;

// ---------------------------------------------------------------------------
// Which shell a command names
// ---------------------------------------------------------------------------

/// The characters after the last `/` of `p`.
pub open spec fn last_segment(p: Seq<char>) -> Seq<char>
    decreases p.len(),
{
    if p.len() == 0 {
        p
    } else if p.last() == '/' {
        seq![]
    } else {
        last_segment(p.drop_last()).push(p.last())
    }
}

/// A path whose file name every platform reads alike: no `\` or `:`, no
/// leading `//`, and a last segment that is a real name (not empty, `.` or
/// `..`).
pub open spec fn plain_path(p: Seq<char>) -> bool {
    &&& forall|i: int| 0 <= i < p.len() ==> #[trigger] p[i] != '\\' && p[i] != ':'
    &&& !(p.len() >= 2 && p[0] == '/' && p[1] == '/')
    &&& last_segment(p).len() > 0
    &&& last_segment(p) != "."@
    &&& last_segment(p) != ".."@
}

/// `p` without trailing `/` and `/.` (kept when only one character is
/// left): `Path` reads `a/b/`, `a/b/.` and `a/b` alike.
pub open spec fn trailing_trimmed(p: Seq<char>) -> Seq<char>
    decreases p.len(),
{
    if p.len() > 1 && p.last() == '/' {
        trailing_trimmed(p.drop_last())
    } else if p.len() > 1 && p.last() == '.' && p[p.len() - 2] == '/' {
        trailing_trimmed(p.drop_last())
    } else {
        p
    }
}

/// The part of `n` before its last `.`, if it has one.
pub open spec fn before_last_dot(n: Seq<char>) -> Option<Seq<char>>
    decreases n.len(),
{
    if n.len() == 0 {
        None
    } else if n.last() == '.' {
        Some(n.drop_last())
    } else {
        before_last_dot(n.drop_last())
    }
}

/// The stem of a file name (`Path::file_stem`): the part before the last
/// `.`, or the whole name when it has no `.` other than a leading one.
pub open spec fn stem_of_name(n: Seq<char>) -> Seq<char> {
    match before_last_dot(n) {
        Some(b) => if b.len() == 0 {
            n
        } else {
            b
        },
        None => n,
    }
}

/// What `str::to_lowercase` gives for `s` (Unicode lower case mapping).
pub uninterp spec fn lowercased(s: Seq<char>) -> Seq<char>;

/// Every character of `s` is ASCII.
pub open spec fn all_ascii(s: Seq<char>) -> bool {
    forall|i: int| 0 <= i < s.len() ==> (#[trigger] s[i] as u32) < 128
}

/// `c` lower-cased by the ASCII rule: `A`..`Z` become `a`..`z`, every other
/// character stays.
pub open spec fn ascii_lower_char(c: char) -> char {
    if 65 <= (c as u32) && (c as u32) <= 90 {
        ((c as u32) + 32) as char
    } else {
        c
    }
}

/// `s` lower-cased by the ASCII rule, character by character.
pub open spec fn ascii_lowered(s: Seq<char>) -> Seq<char> {
    Seq::new(s.len(), |i: int| ascii_lower_char(s[i]))
}

/// The lower case of `s`: the ASCII rule on ASCII text, the Unicode mapping
/// of `str::to_lowercase` otherwise.
pub open spec fn lower_text(s: Seq<char>) -> Seq<char> {
    if all_ascii(s) {
        ascii_lowered(s)
    } else {
        lowercased(s)
    }
}

/// `Path::new(path).file_stem()` as text. `Path` drops a trailing `/` or
/// `/.` (its documentation: trailing slashes and `.` components are
/// normalized away), so on a path that is plain once they are gone every
/// platform agrees: the stem of the text after the last `/`. For other
/// paths (with `\` or `:`, say) the result depends on the platform's path
/// rules, and the contract leaves it unsaid.
#[verifier::external_body]
fn file_stem_text(path: &str) -> (r: Option<String>)
    ensures
        plain_path(trailing_trimmed(path@)) ==> opt_text(r) == Some(
            stem_of_name(last_segment(trailing_trimmed(path@))),
        ),
{
    match std::path::Path::new(path).file_stem() {
        Some(stem) => match stem.to_str() {
            Some(text) => Some(text.to_string()),
            None => None,
        },
        None => None,
    }
}

/// `str::to_lowercase`: the result is [`lowercased`] of the input, and on
/// ASCII text it maps `A`..`Z` to `a`..`z` and keeps every other character
/// (the Unicode lower case of an ASCII letter is its ASCII lower case). The
/// Unicode case tables it follows beyond ASCII are left unsaid.
#[verifier::external_body]
fn to_lowercase(s: &str) -> (r: String)
    ensures
        r@ == lowercased(s@),
        all_ascii(s@) ==> r@ == ascii_lowered(s@),
{
    s.to_lowercase()
}

/// The shell that a lower-cased base name stands for.
pub open spec fn kind_for_name(name: Seq<char>) -> Option<ShellKind> {
    if name == "pwsh"@ || name == "powershell"@ {
        Some(ShellKind::Pwsh)
    } else if name == "bash"@ {
        Some(ShellKind::Bash)
    } else if name == "zsh"@ {
        Some(ShellKind::Zsh)
    } else if name == "fish"@ {
        Some(ShellKind::Fish)
    } else {
        None
    }
}

/// The shell that a plain path names: its file stem, lower-cased.
pub open spec fn kind_of_plain_path(p: Seq<char>) -> Option<ShellKind> {
    kind_for_name(lower_text(stem_of_name(last_segment(p))))
}

impl ShellKind {
    /// The shell that a lower-cased base name (`pwsh`, `powershell`,
    /// `bash`, `zsh`, `fish`) stands for.
    pub fn from_name(name: &str) -> (r: Option<ShellKind>)
        ensures
            r == kind_for_name(name@),
    {
        if same_text(name, "pwsh") || same_text(name, "powershell") {
            Some(ShellKind::Pwsh)
        } else if same_text(name, "bash") {
            Some(ShellKind::Bash)
        } else if same_text(name, "zsh") {
            Some(ShellKind::Zsh)
        } else if same_text(name, "fish") {
            Some(ShellKind::Fish)
        } else {
            None
        }
    }

    /// The shell that the command `shell` starts: the file stem of the
    /// command, lower-cased (the whole command where it has no stem).
    pub fn of_command(shell: &str) -> (r: Option<ShellKind>)
        ensures
            plain_path(trailing_trimmed(shell@)) ==> r == kind_of_plain_path(
                trailing_trimmed(shell@),
            ),
    {
        let stem = file_stem_text(shell);
        let lowered = match stem {
            Some(s) => to_lowercase(s.as_str()),
            None => to_lowercase(shell),
        };
        ShellKind::from_name(lowered.as_str())
    }
}

// ---------------------------------------------------------------------------
// Init scripts
// ---------------------------------------------------------------------------

/// The init script of each shell.
pub open spec fn script_text(kind: ShellKind) -> Seq<char> {
    match kind {
        ShellKind::Pwsh => PWSH_INIT@,
        ShellKind::Bash => BASH_INIT@,
        ShellKind::Zsh => ZSH_INIT@,
        ShellKind::Fish => FISH_INIT@,
    }
}

/// The init script for a shell, if it has one.
pub open spec fn script_for(kind: Option<ShellKind>) -> Option<Seq<char>> {
    match kind {
        Some(k) => Some(script_text(k)),
        None => None,
    }
}

/// The view of an optional string.
pub open spec fn opt_text(s: Option<String>) -> Option<Seq<char>> {
    match s {
        Some(t) => Some(t@),
        None => None,
    }
}

impl ShellIntegration {
    /// The init script of `kind`.
    pub fn script(kind: ShellKind) -> (r: String)
        ensures
            r@ == script_text(kind),
    {
        match kind {
            ShellKind::Pwsh => PWSH_INIT.to_owned(),
            ShellKind::Bash => BASH_INIT.to_owned(),
            ShellKind::Zsh => ZSH_INIT.to_owned(),
            ShellKind::Fish => FISH_INIT.to_owned(),
        }
    }

    /// Returns an init script for the given shell that injects OSC 133
    /// markers, or `None` if the shell is unsupported.
    pub fn init_script(shell: &str) -> (r: Option<String>)
        ensures
            exists|k: Option<ShellKind>|
                opt_text(r) == script_for(k) && (plain_path(trailing_trimmed(shell@)) ==> k
                    == kind_of_plain_path(trailing_trimmed(shell@))),
    {
        let kind = ShellKind::of_command(shell);
        let r = match kind {
            Some(k) => Some(ShellIntegration::script(k)),
            None => None,
        };
        assert(opt_text(r) == script_for(kind));
        r
    }
}

// ---------------------------------------------------------------------------
// Starting the shell
// ---------------------------------------------------------------------------

/// The file name of a shell's init script.
pub open spec fn script_file_name(kind: ShellKind) -> Seq<char> {
    match kind {
        ShellKind::Pwsh => "init.ps1"@,
        ShellKind::Fish => "init.fish"@,
        _ => "init.sh"@,
    }
}

/// The file name of a shell's init script inside the session directory.
pub fn init_script_file_name(kind: ShellKind) -> (r: String)
    ensures
        r@ == script_file_name(kind),
{
    match kind {
        ShellKind::Pwsh => "init.ps1".to_owned(),
        ShellKind::Fish => "init.fish".to_owned(),
        _ => "init.sh".to_owned(),
    }
}

/// `'` + `p` + `'`.
pub open spec fn quoted(p: Seq<char>) -> Seq<char> {
    seq!['\''] + p + seq!['\'']
}

/// The arguments that make the shell run the init script at `init` on
/// startup; none without a script or for a shell without integration.
pub open spec fn startup_args(kind: Option<ShellKind>, init: Option<Seq<char>>) -> Seq<Seq<char>> {
    match (kind, init) {
        (Some(ShellKind::Pwsh), Some(p)) => seq![
            "-NoExit"@,
            "-Command"@,
            ". "@ + quoted(p),
        ],
        (Some(ShellKind::Bash), Some(p)) => seq!["--rcfile"@, p],
        (Some(ShellKind::Zsh), Some(p)) => seq!["-c"@, "source "@ + quoted(p) + "; exec zsh -i"@],
        (Some(ShellKind::Fish), Some(p)) => seq!["--init-command"@, "source "@ + quoted(p)],
        _ => seq![],
    }
}

/// The views of a list of strings.
pub open spec fn texts_view(v: Seq<String>) -> Seq<Seq<char>> {
    v.map_values(|s: String| s@)
}

/// `a`, then `'` + `p` + `'`, then `b`.
fn around_quoted(a: &str, p: &str, b: &str) -> (r: String)
    ensures
        r@ == a@ + quoted(p@) + b@,
{
    let mut cs = chars_of(a);
    cs.push('\'');
    let pc = chars_of(p);
    let bc = chars_of(b);
    let mut i: usize = 0;
    let ghost base = cs@;
    while i < pc.len()
        invariant
            i <= pc@.len(),
            cs@ == base + pc@.take(i as int),
        decreases pc@.len() - i,
    {
        cs.push(pc[i]);
        i += 1;
        assert(cs@ =~= base + pc@.take(i as int));
    }
    cs.push('\'');
    let ghost mid = cs@;
    let mut j: usize = 0;
    while j < bc.len()
        invariant
            j <= bc@.len(),
            cs@ == mid + bc@.take(j as int),
        decreases bc@.len() - j,
    {
        cs.push(bc[j]);
        j += 1;
        assert(cs@ =~= mid + bc@.take(j as int));
    }
    assert(pc@.take(pc@.len() as int) =~= pc@);
    assert(bc@.take(bc@.len() as int) =~= bc@);
    assert(cs@ =~= a@ + quoted(p@) + b@);
    string_from_chars(cs.as_slice())
}

/// The arguments to start `kind` so that it runs the init script at
/// `init_path` on startup.
pub fn shell_startup_args(kind: Option<ShellKind>, init_path: Option<&str>) -> (r: Vec<String>)
    ensures
        texts_view(r@) == startup_args(
            kind,
            match init_path {
                Some(p) => Some(p@),
                None => None,
            },
        ),
{
    let mut args: Vec<String> = Vec::new();
    match (kind, init_path) {
        (Some(ShellKind::Pwsh), Some(p)) => {
            args.push("-NoExit".to_owned());
            args.push("-Command".to_owned());
            args.push(around_quoted(". ", p, ""));
            assert(". "@ + quoted(p@) + ""@ =~= ". "@ + quoted(p@)) by {
                reveal_strlit("");
            }
        },
        (Some(ShellKind::Bash), Some(p)) => {
            args.push("--rcfile".to_owned());
            args.push(p.to_owned());
        },
        (Some(ShellKind::Zsh), Some(p)) => {
            args.push("-c".to_owned());
            args.push(around_quoted("source ", p, "; exec zsh -i"));
        },
        (Some(ShellKind::Fish), Some(p)) => {
            args.push("--init-command".to_owned());
            args.push(around_quoted("source ", p, ""));
            assert("source "@ + quoted(p@) + ""@ =~= "source "@ + quoted(p@)) by {
                reveal_strlit("");
            }
        },
        _ => {},
    }
    assert(texts_view(args@) =~= startup_args(
        kind,
        match init_path {
            Some(p) => Some(p@),
            None => None,
        },
    ));
    args
}

/// The shell to start: the one asked for, else the configured default,
/// else the platform's default.
pub fn choose_shell(requested: Option<String>, configured: Option<String>, fallback: String) -> (r:
    String)
    ensures
        r == match requested {
            Some(s) => s,
            None => match configured {
                Some(c) => c,
                None => fallback,
            },
        },
{
    match requested {
        Some(s) => s,
        None => match configured {
            Some(c) => c,
            None => fallback,
        },
    }
}

/// The platform's default shell: `pwsh` on Windows, else `$SHELL`, else
/// `/bin/sh`.
pub fn default_shell_for(windows: bool, env_shell: Option<String>) -> (r: String)
    ensures
        r@ == if windows {
            "pwsh"@
        } else {
            match env_shell {
                Some(s) => s@,
                None => "/bin/sh"@,
            }
        },
{
    if windows {
        "pwsh".to_owned()
    } else {
        match env_shell {
            Some(s) => s,
            None => "/bin/sh".to_owned(),
        }
    }
}

} // verus!
