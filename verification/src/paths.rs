//! File-system paths given as text, joined with `Path::join`.
use vstd::prelude::*;

verus! {

/// A path separator on some platform: `/` everywhere, `\` on Windows too.
pub open spec fn is_sep(c: char) -> bool {
    c == '/' || c == '\\'
}

/// A directory path that every platform reads without a prefix: no `:`
/// (no drive), no leading pair of separators (no UNC or verbatim prefix),
/// and no trailing `\` (a separator on Windows only).
pub open spec fn portable_dir(b: Seq<char>) -> bool {
    &&& forall|i: int| 0 <= i < b.len() ==> #[trigger] b[i] != ':'
    &&& !(b.len() >= 2 && is_sep(b[0]) && is_sep(b[1]))
    &&& (b.len() == 0 || b.last() != '\\')
}

/// A single file name that every platform reads as one relative
/// component: no `/`, `\` or `:`.
pub open spec fn portable_name(p: Seq<char>) -> bool {
    forall|i: int| 0 <= i < p.len() ==> #[trigger] p[i] != '/' && p[i] != '\\' && p[i] != ':'
}

/// `base` followed by `part`, with the separator `sep` between them where
/// `base` is not empty and does not already end in `/`.
pub open spec fn joined_with(base: Seq<char>, part: Seq<char>, sep: char) -> Seq<char> {
    if base.len() == 0 || base.last() == '/' {
        base + part
    } else {
        base + seq![sep] + part
    }
}

/// `Path::new(base).join(part)` as text (both are UTF-8, so the join is
/// too, and the lossy conversion keeps every character). On a portable
/// directory and name the result is `base`, the platform's main separator
/// (`/`, or `\` on Windows) unless `base` is empty or ends in `/`, and
/// `part`. Which separator is the platform's, and what other inputs give
/// (absolute parts, drive and UNC prefixes), is left unsaid.
#[verifier::external_body]
pub(crate) fn join_path(base: &str, part: &str) -> (r: String)
    ensures
        portable_dir(base@) && portable_name(part@) ==> (r@ == joined_with(base@, part@, '/')
            || r@ == joined_with(base@, part@, '\\')),
{
    std::path::Path::new(base).join(part).to_string_lossy().into_owned()
}

/// A portable directory joined with a non-empty portable name is again a
/// portable directory.
pub proof fn lemma_join_stays_portable(b: Seq<char>, p: Seq<char>, sep: char)
    requires
        portable_dir(b),
        portable_name(p),
        p.len() > 0,
        is_sep(sep),
    ensures
        portable_dir(joined_with(b, p, sep)),
{
    let r = joined_with(b, p, sep);
    assert(r.last() == p.last());
    assert forall|i: int| 0 <= i < r.len() implies #[trigger] r[i] != ':' by {
        if i < b.len() {
            assert(r[i] == b[i]);
        } else if r.len() == b.len() + p.len() {
            assert(r[i] == p[i - b.len()]);
        } else if i > b.len() {
            assert(r[i] == p[i - b.len() - 1]);
        }
    }
    if b.len() == 0 {
        assert(r[0] == p[0]);
    } else if b.len() == 1 {
        if b.last() == '/' {
            assert(r[1] == p[0]);
        } else {
            assert(r[0] == b[0]);
        }
    } else {
        assert(r[0] == b[0] && r[1] == b[1]);
    }
}

/// The path `name` inside `~/.termsnoop` for the home directory `home`, with
/// the separators `s1` and `s2`.
pub open spec fn data_path(home: Seq<char>, name: Seq<char>, s1: char, s2: char) -> Seq<char> {
    joined_with(joined_with(home, ".termsnoop"@, s1), name, s2)
}

/// `home.join(".termsnoop").join(name)` for a portable home directory and a
/// non-empty portable name: `data_path` with some pair of separators.
fn data_file(home: &str, name: &str) -> (r: String)
    requires
        portable_name(name@),
        name@.len() > 0,
    ensures
        portable_dir(home@) ==> exists|s1: char, s2: char|
            is_sep(s1) && is_sep(s2) && r@ == #[trigger] data_path(home@, name@, s1, s2),
{
    let d = join_path(home, ".termsnoop");
    proof {
        reveal_strlit(".termsnoop");
        assert(portable_name(".termsnoop"@));
        if portable_dir(home@) {
            let s1 = if d@ == joined_with(home@, ".termsnoop"@, '/') { '/' } else { '\\' };
            assert(d@ == joined_with(home@, ".termsnoop"@, s1));
            lemma_join_stays_portable(home@, ".termsnoop"@, s1);
        }
    }
    let r = join_path(d.as_str(), name);
    proof {
        if portable_dir(home@) {
            let s1 = if d@ == joined_with(home@, ".termsnoop"@, '/') { '/' } else { '\\' };
            let s2 = if r@ == joined_with(d@, name@, '/') { '/' } else { '\\' };
            assert(r@ == data_path(home@, name@, s1, s2));
        }
    }
    r
}

/// `~/.termsnoop/sessions`: one directory per session.
pub fn sessions_root(home: &str) -> (r: String)
    ensures
        portable_dir(home@) ==> exists|s1: char, s2: char|
            is_sep(s1) && is_sep(s2) && r@ == #[trigger] data_path(home@, "sessions"@, s1, s2),
{
    proof {
        reveal_strlit("sessions");
    }
    data_file(home, "sessions")
}

/// `~/.termsnoop/config.toml`: the configuration file.
pub fn config_file(home: &str) -> (r: String)
    ensures
        portable_dir(home@) ==> exists|s1: char, s2: char|
            is_sep(s1) && is_sep(s2) && r@ == #[trigger] data_path(home@, "config.toml"@, s1, s2),
{
    proof {
        reveal_strlit("config.toml");
    }
    data_file(home, "config.toml")
}

/// `~/.termsnoop/debug.log`: where a debug session writes its log.
pub fn debug_log_file(home: &str) -> (r: String)
    ensures
        portable_dir(home@) ==> exists|s1: char, s2: char|
            is_sep(s1) && is_sep(s2) && r@ == #[trigger] data_path(home@, "debug.log"@, s1, s2),
{
    proof {
        reveal_strlit("debug.log");
    }
    data_file(home, "debug.log")
}

} // verus!
