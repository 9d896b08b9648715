//! Sessions: their metadata, their ordering, which one is the latest,
//! what a read shows of them and which ones a clean removes.
use rand::Rng;
use vstd::prelude::*;

use crate::boundary::CompletedCommand;
use crate::paths::{join_path, joined_with, portable_dir, portable_name};
use crate::shell::{opt_text, texts_view};
use crate::text::{
    ansi_stripped, chars_of, lemma_padded_keeps_text, lossy_text, padded, push_padded, push_text,
    same_text,
    string_from_chars, strip_ansi, tail_lines, tail_text, utf8_lossy,
};

verus! {

/// A point in time: whole seconds since the Unix epoch and the nanoseconds
/// after them.
#[derive(Debug, Clone, Copy, PartialEq, Eq, Structural)]
pub struct Timestamp {
    pub secs: i64,
    pub nanos: u32,
}

/// Whether `a` is earlier than `b`.
pub open spec fn ts_before(a: Timestamp, b: Timestamp) -> bool {
    a.secs < b.secs || (a.secs == b.secs && a.nanos < b.nanos)
}

/// The time `t` as nanoseconds from the epoch.
pub open spec fn total_nanos(t: Timestamp) -> int {
    t.secs * 1_000_000_000 + t.nanos
}

/// `ts_before` is the chronological order: for times whose nanoseconds are
/// below a second, `a` is before `b` exactly when fewer nanoseconds have
/// passed since the epoch at `a` than at `b`; and an earlier second is
/// always earlier, whatever the nanoseconds.
pub proof fn lemma_ts_before_is_chronological(a: Timestamp, b: Timestamp)
    ensures
        a.secs < b.secs ==> ts_before(a, b),
        b.secs < a.secs ==> !ts_before(a, b),
        (a.nanos < 1_000_000_000 && b.nanos < 1_000_000_000) ==> (ts_before(a, b) <==> total_nanos(
            a,
        ) < total_nanos(b)),
{
    if a.nanos < 1_000_000_000 && b.nanos < 1_000_000_000 {
        let (x, y, p, q) = (a.secs as int, b.secs as int, a.nanos as int, b.nanos as int);
        assert(x < y ==> x * 1_000_000_000 + p < y * 1_000_000_000 + q) by (nonlinear_arith)
            requires
                0 <= p < 1_000_000_000,
                0 <= q < 1_000_000_000,
        ;
        assert(y < x ==> y * 1_000_000_000 + q < x * 1_000_000_000 + p) by (nonlinear_arith)
            requires
                0 <= p < 1_000_000_000,
                0 <= q < 1_000_000_000,
        ;
    }
}

impl Timestamp {
    /// Whether `self` is earlier than `other`.
    pub fn is_before(&self, other: &Timestamp) -> (r: bool)
        ensures
            r == ts_before(*self, *other),
    {
        self.secs < other.secs || (self.secs == other.secs && self.nanos < other.nanos)
    }
}

/// The metadata of a captured session (`meta.json`).
#[derive(Debug, Clone)]
pub struct SessionMeta {
    pub id: String,
    pub name: Option<String>,
    pub pid: u32,
    pub shell: String,
    pub cwd: String,
    pub started_at: Timestamp,
    pub ended_at: Option<Timestamp>,
    pub status: String,
}

/// One finished command of a session (a line of `commands.jsonl`).
#[derive(Debug, Clone)]
pub struct CommandEntry {
    pub index: usize,
    pub command: String,
    pub exit_code: Option<i32>,
    pub output: String,
    pub timestamp: Timestamp,
}

impl SessionMeta {
    /// The metadata of a session that has just started.
    pub fn new_active(
        id: String,
        name: Option<String>,
        pid: u32,
        shell: String,
        cwd: String,
        started_at: Timestamp,
    ) -> (m: SessionMeta)
        ensures
            m.id == id,
            m.name == name,
            m.pid == pid,
            m.shell == shell,
            m.cwd == cwd,
            m.started_at == started_at,
            m.ended_at is None,
            m.status@ == "active"@,
    {
        SessionMeta {
            id,
            name,
            pid,
            shell,
            cwd,
            started_at,
            ended_at: None,
            status: "active".to_owned(),
        }
    }

    /// Sets the status; a session that has `exited` also gets its end time.
    pub fn set_status(&mut self, status: &str, now: Timestamp)
        ensures
            final(self).status@ == status@,
            final(self).ended_at == if status@ == "exited"@ {
                Some(now)
            } else {
                old(self).ended_at
            },
            final(self).id == old(self).id,
            final(self).name == old(self).name,
            final(self).pid == old(self).pid,
            final(self).shell == old(self).shell,
            final(self).cwd == old(self).cwd,
            final(self).started_at == old(self).started_at,
    {
        self.status = status.to_owned();
        if same_text(status, "exited") {
            self.ended_at = Some(now);
        }
    }
}

impl CommandEntry {
    /// The entry written for a finished command, stamped with the time it
    /// was recorded.
    pub fn recorded(c: CompletedCommand, at: Timestamp) -> (e: CommandEntry)
        ensures
            e.index == c.index,
            e.command == c.command,
            e.exit_code == c.exit_code,
            e.output == c.output,
            e.timestamp == at,
    {
        CommandEntry {
            index: c.index,
            command: c.command,
            exit_code: c.exit_code,
            output: c.output,
            timestamp: at,
        }
    }
}

// ---------------------------------------------------------------------------
// Paths
// ---------------------------------------------------------------------------

/// The directory of session `id` under the sessions directory.
pub fn session_dir(sessions_root: &str, id: &str) -> (r: String)
    ensures
        portable_dir(sessions_root@) && portable_name(id@) ==> (r@ == joined_with(
            sessions_root@,
            id@,
            '/',
        ) || r@ == joined_with(sessions_root@, id@, '\\')),
{
    join_path(sessions_root, id)
}

// ---------------------------------------------------------------------------
// Newest first
// ---------------------------------------------------------------------------

/// `s` (newest first) with `x` placed after every session that did not
/// start before it.
pub open spec fn insert_newest_first(s: Seq<SessionMeta>, x: SessionMeta) -> Seq<SessionMeta>
    decreases s.len(),
{
    if s.len() == 0 {
        seq![x]
    } else if ts_before(s.last().started_at, x.started_at) {
        insert_newest_first(s.drop_last(), x).push(s.last())
    } else {
        s.push(x)
    }
}

/// The sessions ordered by start time, newest first; sessions that started
/// at the same time keep their order (a stable sort, as `sort_by`).
pub open spec fn newest_first(s: Seq<SessionMeta>) -> Seq<SessionMeta>
    decreases s.len(),
{
    if s.len() == 0 {
        seq![]
    } else {
        insert_newest_first(newest_first(s.drop_last()), s.last())
    }
}

/// Whether no session of `s` started after one that comes before it.
pub open spec fn is_newest_first(s: Seq<SessionMeta>) -> bool {
    forall|i: int, j: int|
        0 <= i < j < s.len() ==> !ts_before(#[trigger] s[i].started_at, #[trigger] s[j].started_at)
}

proof fn lemma_insert_at(s: Seq<SessionMeta>, x: SessionMeta, pos: int)
    requires
        0 <= pos <= s.len(),
        forall|j: int| pos <= j < s.len() ==> ts_before(#[trigger] s[j].started_at, x.started_at),
        pos == 0 || !ts_before(s[pos - 1].started_at, x.started_at),
    ensures
        insert_newest_first(s, x) == s.insert(pos, x),
    decreases s.len(),
{
    if s.len() == 0 {
        assert(s.insert(pos, x) =~= seq![x]);
    } else if pos == s.len() {
        assert(s.insert(pos, x) =~= s.push(x));
    } else {
        assert(ts_before(s[s.len() - 1].started_at, x.started_at));
        let d = s.drop_last();
        assert forall|j: int| pos <= j < d.len() implies ts_before(
            #[trigger] d[j].started_at,
            x.started_at,
        ) by {
            assert(d[j] == s[j]);
        }
        lemma_insert_at(d, x, pos);
        assert(d.insert(pos, x).push(s.last()) =~= s.insert(pos, x));
    }
}

proof fn lemma_insert_keeps_order(s: Seq<SessionMeta>, x: SessionMeta)
    requires
        is_newest_first(s),
    ensures
        is_newest_first(insert_newest_first(s, x)),
        insert_newest_first(s, x).to_multiset() == s.to_multiset().insert(x),
        insert_newest_first(s, x).len() == s.len() + 1,
    decreases s.len(),
{
    broadcast use vstd::seq_lib::group_to_multiset_ensures;

    if s.len() == 0 {
        assert(seq![x] =~= Seq::<SessionMeta>::empty().push(x));
    } else if ts_before(s.last().started_at, x.started_at) {
        let d = s.drop_last();
        assert(is_newest_first(d)) by {
            assert forall|i: int, j: int| 0 <= i < j < d.len() implies !ts_before(
                #[trigger] d[i].started_at,
                #[trigger] d[j].started_at,
            ) by {
                assert(d[i] == s[i] && d[j] == s[j]);
            }
        }
        lemma_insert_keeps_order(d, x);
        let r = insert_newest_first(d, x);
        let t = r.push(s.last());
        assert forall|i: int, j: int| 0 <= i < j < t.len() implies !ts_before(
            #[trigger] t[i].started_at,
            #[trigger] t[j].started_at,
        ) by {
            if j == t.len() - 1 {
                // every element of r is x or an element of d
                assert(r.to_multiset().count(t[i]) > 0) by {
                    assert(r.contains(t[i])) by {
                        assert(r[i] == t[i]);
                    }
                }
                assert(s.to_multiset() == d.to_multiset().insert(s.last())) by {
                    assert(d.push(s.last()) =~= s);
                }
                if t[i] == x {
                } else {
                    assert(d.to_multiset().count(t[i]) > 0);
                    assert(d.contains(t[i]));
                    let k = choose|k: int| 0 <= k < d.len() && d[k] == t[i];
                    assert(s[k] == t[i]);
                    assert(!ts_before(s[k].started_at, s[s.len() - 1].started_at));
                }
            }
        }
        assert(d.push(s.last()) =~= s);
    } else {
        let t = s.push(x);
        assert forall|i: int, j: int| 0 <= i < j < t.len() implies !ts_before(
            #[trigger] t[i].started_at,
            #[trigger] t[j].started_at,
        ) by {
            if j == t.len() - 1 {
                if i < s.len() - 1 {
                    assert(!ts_before(s[i].started_at, s[s.len() - 1].started_at));
                }
            } else {
                assert(t[i] == s[i] && t[j] == s[j]);
            }
        }
    }
}

/// The sessions ordered newest first really are ordered so, and hold
/// exactly the sessions given (each as often as it was given).
pub proof fn lemma_newest_first_sorts(s: Seq<SessionMeta>)
    ensures
        is_newest_first(newest_first(s)),
        newest_first(s).to_multiset() == s.to_multiset(),
        newest_first(s).len() == s.len(),
    decreases s.len(),
{
    broadcast use vstd::seq_lib::group_to_multiset_ensures;

    if s.len() > 0 {
        lemma_newest_first_sorts(s.drop_last());
        lemma_insert_keeps_order(newest_first(s.drop_last()), s.last());
        assert(s.drop_last().push(s.last()) =~= s);
    }
}

/// Orders sessions by start time, newest first; sessions that started at the
/// same time keep their order.
pub fn sort_newest_first(sessions: Vec<SessionMeta>) -> (r: Vec<SessionMeta>)
    ensures
        r@ == newest_first(sessions@),
{
    let mut out: Vec<SessionMeta> = Vec::new();
    let mut rest = sessions;
    let ghost all = rest@;
    let mut taken: usize = 0;
    let n = rest.len();
    // Move the sessions out in order, inserting each one.
    let mut reversed: Vec<SessionMeta> = Vec::new();
    while rest.len() > 0
        invariant
            rest@.len() + reversed@.len() == n,
            n == all.len(),
            all == rest@ + reversed@.reverse(),
        decreases rest@.len(),
    {
        let ghost before_rest = rest@;
        let ghost before_rev = reversed@;
        let x = rest.pop().unwrap();
        reversed.push(x);
        assert(reversed@.reverse() =~= seq![x] + before_rev.reverse());
        assert(before_rest =~= rest@.push(x));
        assert(all =~= rest@ + reversed@.reverse());
    }
    assert(all =~= reversed@.reverse());
    // `reversed` holds the sessions last first; pop gives them first first.
    assert(all.take(0) =~= Seq::<SessionMeta>::empty());
    while reversed.len() > 0
        invariant
            taken + reversed@.len() == n,
            n == all.len(),
            all == all.take(taken as int) + reversed@.reverse(),
            out@ == newest_first(all.take(taken as int)),
        decreases reversed@.len(),
    {
        let ghost before_rev = reversed@;
        let x = reversed.pop().unwrap();
        assert(before_rev.reverse() =~= seq![x] + reversed@.reverse());
        assert(all[taken as int] == x) by {
            assert(all == all.take(taken as int) + before_rev.reverse());
        }
        let mut pos = out.len();
        while pos > 0 && out[pos - 1].started_at.is_before(&x.started_at)
            invariant
                pos <= out@.len(),
                forall|j: int|
                    pos <= j < out@.len() ==> ts_before(
                        #[trigger] out@[j].started_at,
                        x.started_at,
                    ),
            decreases pos,
        {
            pos -= 1;
        }
        proof {
            lemma_insert_at(out@, x, pos as int);
            assert(all.take(taken + 1).drop_last() =~= all.take(taken as int));
            assert(all.take(taken + 1).last() == x);
        }
        out.insert(pos, x);
        taken += 1;
        assert(all =~= all.take(taken as int) + reversed@.reverse());
    }
    assert(all.take(n as int) =~= all);
    out
}

/// The id of the session that started last (the first of those that
/// started at the same latest time); none when there are no sessions.
pub open spec fn latest_id(s: Seq<SessionMeta>) -> Option<Seq<char>> {
    if s.len() == 0 {
        None
    } else {
        Some(newest_first(s)[0].id@)
    }
}

/// The latest session is one of the given sessions, and no given session
/// started after it.
pub proof fn lemma_latest_is_newest(s: Seq<SessionMeta>)
    requires
        s.len() > 0,
    ensures
        exists|k: int| 0 <= k < s.len() && s[k] == newest_first(s)[0],
        forall|i: int|
            0 <= i < s.len() ==> !ts_before(newest_first(s)[0].started_at, #[trigger] s[i].started_at),
{
    broadcast use vstd::seq_lib::group_to_multiset_ensures;

    lemma_newest_first_sorts(s);
    let r = newest_first(s);
    assert(r.contains(r[0]));
    assert(s.to_multiset().count(r[0]) > 0);
    assert(s.contains(r[0]));
    assert forall|i: int| 0 <= i < s.len() implies !ts_before(
        r[0].started_at,
        #[trigger] s[i].started_at,
    ) by {
        assert(s.contains(s[i]));
        assert(r.to_multiset().count(s[i]) > 0);
        assert(r.contains(s[i]));
        let k = choose|k: int| 0 <= k < r.len() && r[k] == s[i];
        if k > 0 {
            assert(!ts_before(r[0].started_at, r[k].started_at));
        }
    }
}

/// Why a session cannot be read.
#[derive(Debug, Clone, PartialEq, Eq)]
pub enum SessionError {
    /// There are no sessions at all.
    NoSessions,
}

/// The id of the latest session.
pub fn find_latest_session(sessions: Vec<SessionMeta>) -> (r: Result<String, SessionError>)
    ensures
        match r {
            Ok(id) => latest_id(sessions@) == Some(id@),
            Err(e) => e == SessionError::NoSessions && latest_id(sessions@) is None,
        },
{
    let ghost given = sessions@;
    let sorted = sort_newest_first(sessions);
    proof {
        lemma_newest_first_sorts(given);
    }
    if sorted.len() == 0 {
        return Err(SessionError::NoSessions);
    }
    Ok(sorted[0].id.clone())
}

// ---------------------------------------------------------------------------
// Session ids
// ---------------------------------------------------------------------------

/// The length of a session id.
pub const SESSION_ID_LEN: usize = 7;

/// The characters a session id is made of.
pub const ID_ALPHABET: [u8; 36] = [
    0x61, 0x62, 0x63, 0x64, 0x65, 0x66, 0x67, 0x68, 0x69, 0x6A, 0x6B, 0x6C, 0x6D, 0x6E, 0x6F, 0x70,
    0x71, 0x72, 0x73, 0x74, 0x75, 0x76, 0x77, 0x78, 0x79, 0x7A, 0x30, 0x31, 0x32, 0x33, 0x34, 0x35,
    0x36, 0x37, 0x38, 0x39,
];

/// The id character with alphabet position `i`: `a`-`z` for 0-25, `0`-`9`
/// for 26-35.
pub open spec fn id_char(i: int) -> char {
    if i < 26 {
        (0x61 + i) as char
    } else {
        (0x30 + (i - 26)) as char
    }
}

/// Whether `c` is one of the characters a session id is made of.
pub open spec fn is_id_char(c: char) -> bool {
    exists|i: int| 0 <= i < 36 && c == id_char(i)
}

#[verifier::external_type_specification]
#[verifier::external_body]
pub struct ExThreadRng(rand::rngs::ThreadRng);

/// The thread-local random generator (`rand::thread_rng`).
#[verifier::external_body]
fn thread_rng() -> (r: rand::rngs::ThreadRng) {
    rand::thread_rng()
}

/// `Rng::gen_range(0..bound)`: a random index below `bound` (the range must
/// not be empty); the contract claims only the range.
#[verifier::external_body]
fn gen_index(rng: &mut rand::rngs::ThreadRng, bound: usize) -> (r: usize)
    requires
        bound > 0,
    ensures
        r < bound,
{
    rng.gen_range(0..bound)
}

/// The id spelled by alphabet positions.
pub fn id_from_indices(indices: &[usize]) -> (r: String)
    requires
        forall|j: int| 0 <= j < indices@.len() ==> #[trigger] indices@[j] < 36,
    ensures
        r@.len() == indices@.len(),
        forall|j: int| 0 <= j < indices@.len() ==> #[trigger] r@[j] == id_char(indices@[j] as int),
{
    let mut cs: Vec<char> = Vec::new();
    let mut i: usize = 0;
    while i < indices.len()
        invariant
            i <= indices@.len(),
            forall|j: int| 0 <= j < indices@.len() ==> #[trigger] indices@[j] < 36,
            cs@.len() == i,
            forall|j: int| 0 <= j < i ==> #[trigger] cs@[j] == id_char(indices@[j] as int),
        decreases indices@.len() - i,
    {
        let k = indices[i];
        let alphabet = ID_ALPHABET;
        assert(alphabet@[k as int] as int == id_char(k as int) as int);
        let c: char = alphabet[k] as char;
        cs.push(c);
        i += 1;
    }
    string_from_chars(cs.as_slice())
}

/// A fresh random session id of seven characters from `a`-`z` and `0`-`9`.
pub fn generate_id() -> (r: String)
    ensures
        r@.len() == SESSION_ID_LEN,
        forall|j: int| 0 <= j < r@.len() ==> is_id_char(#[trigger] r@[j]),
{
    let mut rng = thread_rng();
    let mut indices: Vec<usize> = Vec::new();
    let mut i: usize = 0;
    while i < SESSION_ID_LEN
        invariant
            i <= SESSION_ID_LEN,
            indices@.len() == i,
            forall|j: int| 0 <= j < i ==> #[trigger] indices@[j] < 36,
        decreases SESSION_ID_LEN - i,
    {
        indices.push(gen_index(&mut rng, 36));
        i += 1;
    }
    let r = id_from_indices(indices.as_slice());
    assert forall|j: int| 0 <= j < r@.len() implies is_id_char(#[trigger] r@[j]) by {
        assert(r@[j] == id_char(indices@[j] as int));
    }
    r
}

// ---------------------------------------------------------------------------
// Reading a session
// ---------------------------------------------------------------------------

/// What a read shows: the last recorded commands, or the output log (its
/// last lines, or all of it).
#[derive(Debug, Clone, Copy, PartialEq, Eq, Structural)]
pub enum ReadMode {
    Commands(usize),
    Log(Option<usize>),
}

/// What a read is asked to show, and of which session.
#[derive(Debug)]
pub struct ReadPlan {
    pub session_id: String,
    pub mode: ReadMode,
    pub json: bool,
}

/// The mode of a read: commands when a number of commands is asked for,
/// else the log.
pub open spec fn read_mode(last_commands: Option<usize>, tail: Option<usize>) -> ReadMode {
    match last_commands {
        Some(n) => ReadMode::Commands(n),
        None => ReadMode::Log(tail),
    }
}

/// Decides what a read shows: the session asked for (the latest one when
/// none is named), the last `last_commands` commands when that is given,
/// else the last `tail` lines (or all) of the output log.
pub fn read_session(
    session_id: Option<String>,
    last_commands: Option<usize>,
    tail: Option<usize>,
    json: bool,
    sessions: Vec<SessionMeta>,
) -> (r: Result<ReadPlan, SessionError>)
    ensures
        r is Ok <==> (session_id is Some || sessions@.len() > 0),
        match r {
            Ok(plan) => {
                &&& plan.session_id@ == match session_id {
                    Some(id) => id@,
                    None => latest_id(sessions@).unwrap(),
                }
                &&& plan.mode == read_mode(last_commands, tail)
                &&& plan.json == json
            },
            Err(e) => e == SessionError::NoSessions,
        },
{
    let id = match session_id {
        Some(id) => id,
        None => find_latest_session(sessions)?,
    };
    let mode = match last_commands {
        Some(n) => ReadMode::Commands(n),
        None => ReadMode::Log(tail),
    };
    Ok(ReadPlan { session_id: id, mode, json })
}

/// The last `n` of `s` (all of `s` when it has fewer).
pub open spec fn last_n<T>(s: Seq<T>, n: nat) -> Seq<T> {
    if s.len() > n {
        s.skip(s.len() - n)
    } else {
        s
    }
}

/// The last `n` entries (all of them when there are fewer).
pub fn last_entries<T>(entries: Vec<T>, n: usize) -> (r: Vec<T>)
    ensures
        r@ == last_n(entries@, n as nat),
{
    let mut entries = entries;
    let start = if entries.len() > n {
        entries.len() - n
    } else {
        0
    };
    let r = entries.split_off(start);
    assert(entries@.skip(0) =~= entries@);
    r
}

/// The last `n` entries are a suffix of the entries, of length `n` or of
/// all of them.
pub proof fn lemma_last_n_is_suffix<T>(s: Seq<T>, n: nat)
    ensures
        last_n(s, n).len() == if s.len() < n {
            s.len()
        } else {
            n
        },
        last_n(s, n) == s.subrange(s.len() - last_n(s, n).len(), s.len() as int),
{
    if s.len() > n {
        assert(s.skip(s.len() - n) =~= s.subrange(s.len() - n, s.len() as int));
    } else {
        assert(s =~= s.subrange(0, s.len() as int));
    }
}

/// How one command is shown: `$ ` and the command, then its output (if
/// any), then an empty line.
pub open spec fn entry_text(e: CommandEntry) -> Seq<char> {
    seq!['$', ' '] + e.command@ + seq!['\n'] + if e.output@.len() > 0 {
        e.output@ + seq!['\n']
    } else {
        seq![]
    } + seq!['\n']
}

/// How one command is shown, position by position: `$ `, the whole
/// command, a newline, then the whole output and a newline when there is
/// output, then an empty line.
pub proof fn lemma_entry_shows_whole_output(e: CommandEntry)
    ensures
        entry_text(e).subrange(0, 2) == seq!['$', ' '],
        entry_text(e).subrange(2, 2 + (e.command@.len() as int)) == e.command@,
        entry_text(e)[2 + (e.command@.len() as int)] == '\n',
        (e.output@.len() as int) > 0 ==> entry_text(e).subrange(
            3 + (e.command@.len() as int),
            3 + (e.command@.len() as int) + (e.output@.len() as int),
        ) == e.output@,
        entry_text(e).len() == 4 + (e.command@.len() as int) + if (e.output@.len() as int) > 0 {
            (e.output@.len() as int) + 1
        } else {
            0
        },
        entry_text(e)[entry_text(e).len() - 1] == '\n',
        entry_text(e)[entry_text(e).len() - 2] == '\n',
{
    let t = entry_text(e);
    let c = e.command@.len() as int;
    assert(t.subrange(0, 2) =~= seq!['$', ' ']);
    assert(t.subrange(2, 2 + c) =~= e.command@);
    if (e.output@.len() as int) > 0 {
        assert(t.subrange(3 + c, 3 + c + (e.output@.len() as int)) =~= e.output@);
    }
}

/// How commands are shown, one after the other.
pub open spec fn commands_text(s: Seq<CommandEntry>) -> Seq<char>
    decreases s.len(),
{
    if s.len() == 0 {
        seq![]
    } else {
        commands_text(s.drop_last()) + entry_text(s.last())
    }
}

proof fn lemma_commands_text_prefix(s: Seq<CommandEntry>, k: int)
    requires
        0 <= k <= s.len(),
    ensures
        commands_text(s.take(k)).len() <= commands_text(s).len(),
        commands_text(s).subrange(0, commands_text(s.take(k)).len() as int) == commands_text(
            s.take(k),
        ),
    decreases s.len() - k,
{
    if k < s.len() {
        lemma_commands_text_prefix(s, k + 1);
        assert(s.take(k + 1).drop_last() =~= s.take(k));
        let a = commands_text(s.take(k));
        let b = commands_text(s.take(k + 1));
        assert(b.subrange(0, a.len() as int) =~= a);
        assert(commands_text(s).subrange(0, a.len() as int) =~= b.subrange(0, a.len() as int));
    } else {
        assert(s.take(k) =~= s);
        assert(commands_text(s).subrange(0, commands_text(s).len() as int) =~= commands_text(s));
    }
}

/// Every command shown keeps its whole text: the text of entry `j` stands,
/// unbroken, in the text of all the entries, right after the text of the
/// entries before it; so its whole command and its whole output appear
/// there.
pub proof fn lemma_commands_text_holds_each_entry(s: Seq<CommandEntry>, j: int)
    requires
        0 <= j < s.len(),
    ensures
        ({
            let at = commands_text(s.take(j)).len() as int;
            let c = s[j].command@.len() as int;
            let o = s[j].output@.len() as int;
            &&& at + entry_text(s[j]).len() <= commands_text(s).len()
            &&& commands_text(s).subrange(at, at + entry_text(s[j]).len()) == entry_text(s[j])
            &&& commands_text(s).subrange(at + 2, at + 2 + c) == s[j].command@
            &&& o > 0 ==> commands_text(s).subrange(at + 3 + c, at + 3 + c + o) == s[j].output@
        }),
{
    lemma_commands_text_prefix(s, j + 1);
    assert(s.take(j + 1).drop_last() =~= s.take(j));
    assert(s.take(j + 1).last() == s[j]);
    lemma_entry_shows_whole_output(s[j]);
    let at = commands_text(s.take(j)).len() as int;
    let whole = commands_text(s);
    let pre = commands_text(s.take(j + 1));
    let et = entry_text(s[j]);
    assert(pre == commands_text(s.take(j)) + et);
    assert(whole.subrange(at, at + et.len()) =~= et) by {
        assert(whole.subrange(0, pre.len() as int) == pre);
        assert forall|i: int| 0 <= i < et.len() implies #[trigger] whole.subrange(at, at + et.len())[i]
            == et[i] by {
            assert(whole[at + i] == whole.subrange(0, pre.len() as int)[at + i]);
            assert(pre[at + i] == et[i]);
        }
    }
    let c = s[j].command@.len() as int;
    let o = s[j].output@.len() as int;
    assert(whole.subrange(at + 2, at + 2 + c) =~= et.subrange(2, 2 + c)) by {
        assert forall|i: int| 0 <= i < c implies #[trigger] whole.subrange(at + 2, at + 2 + c)[i] == et.subrange(
            2,
            2 + c,
        )[i] by {
            assert(whole.subrange(at, at + et.len())[2 + i] == et[2 + i]);
        }
    }
    if o > 0 {
        assert(whole.subrange(at + 3 + c, at + 3 + c + o) =~= et.subrange(3 + c, 3 + c + o)) by {
            assert forall|i: int| 0 <= i < o implies #[trigger] whole.subrange(at + 3 + c, at + 3 + c + o)[i]
                == et.subrange(3 + c, 3 + c + o)[i] by {
                assert(whole.subrange(at, at + et.len())[3 + c + i] == et[3 + c + i]);
            }
        }
    }
}

/// The text shown for commands (when JSON is not asked for).
pub fn render_commands(entries: &[CommandEntry]) -> (r: String)
    ensures
        r@ == commands_text(entries@),
{
    let mut out: Vec<char> = Vec::new();
    let mut i: usize = 0;
    assert(entries@.take(0) =~= Seq::<CommandEntry>::empty());
    while i < entries.len()
        invariant
            i <= entries@.len(),
            out@ == commands_text(entries@.take(i as int)),
        decreases entries@.len() - i,
    {
        let e = &entries[i];
        let ghost before = out@;
        out.push('$');
        out.push(' ');
        push_text(&mut out, e.command.as_str());
        out.push('\n');
        let output = chars_of(e.output.as_str());
        if output.len() > 0 {
            push_text(&mut out, e.output.as_str());
            out.push('\n');
        }
        out.push('\n');
        assert(out@ =~= before + entry_text(entries@[i as int]));
        assert(entries@.take(i + 1).drop_last() =~= entries@.take(i as int));
        i += 1;
    }
    assert(entries@.take(entries@.len() as int) =~= entries@);
    string_from_chars(out.as_slice())
}

/// The output log as text: escape sequences stripped, decoded leniently;
/// only its last `n` lines when a tail is asked for.
pub open spec fn log_text(raw: Seq<u8>, tail: Option<usize>) -> Seq<char> {
    match tail {
        Some(n) => tail_text(utf8_lossy(ansi_stripped(raw)), n as nat),
        None => utf8_lossy(ansi_stripped(raw)),
    }
}

/// The text shown for an output log.
pub fn render_log(raw: &[u8], tail: Option<usize>) -> (r: String)
    ensures
        r@ == log_text(raw@, tail),
{
    let stripped = strip_ansi(raw);
    let text = lossy_text(stripped.as_slice());
    match tail {
        Some(n) => tail_lines(text.as_str(), n),
        None => text,
    }
}

// ---------------------------------------------------------------------------
// Cleaning
// ---------------------------------------------------------------------------

/// The ids of the sessions that started before `cutoff`, in order.
pub open spec fn ids_started_before(s: Seq<SessionMeta>, cutoff: Timestamp) -> Seq<Seq<char>>
    decreases s.len(),
{
    if s.len() == 0 {
        seq![]
    } else if ts_before(s.last().started_at, cutoff) {
        ids_started_before(s.drop_last(), cutoff).push(s.last().id@)
    } else {
        ids_started_before(s.drop_last(), cutoff)
    }
}

/// The ids of the sessions that a clean with this cutoff removes.
pub fn sessions_to_clean(sessions: &[SessionMeta], cutoff: Timestamp) -> (r: Vec<String>)
    ensures
        texts_view(r@) == ids_started_before(sessions@, cutoff),
{
    let mut out: Vec<String> = Vec::new();
    let mut i: usize = 0;
    assert(sessions@.take(0) =~= Seq::<SessionMeta>::empty());
    while i < sessions.len()
        invariant
            i <= sessions@.len(),
            texts_view(out@) == ids_started_before(sessions@.take(i as int), cutoff),
        decreases sessions@.len() - i,
    {
        let ghost before = out@;
        assert(sessions@.take(i + 1).drop_last() =~= sessions@.take(i as int));
        if sessions[i].started_at.is_before(&cutoff) {
            out.push(sessions[i].id.clone());
            assert(texts_view(out@) =~= texts_view(before).push(sessions@[i as int].id@));
        }
        i += 1;
    }
    assert(sessions@.take(sessions@.len() as int) =~= sessions@);
    out
}

/// The largest number of whole seconds a `TimeDelta` holds (it holds
/// `i64::MAX` milliseconds either way).
pub const DELTA_MAX_SECS: i64 = 9_223_372_036_854_775;

/// `TimeDelta::try_days(days)` in seconds: present exactly when `days`
/// whole days fit in a `TimeDelta`, and then `days * 86400`.
#[verifier::external_body]
fn whole_days_secs(days: i64) -> (r: Option<i64>)
    ensures
        r is Some <==> -DELTA_MAX_SECS <= days * 86400 <= DELTA_MAX_SECS,
        r matches Some(s) ==> s == days * 86400,
{
    match chrono::TimeDelta::try_days(days) {
        Some(d) => Some(d.num_seconds()),
        None => None,
    }
}

/// The earliest timestamp chrono represents: the first second of the year
/// -262143 (its earliest year), in seconds from the epoch.
pub const CALENDAR_MIN_SECS: i64 = -8_334_601_228_800;

/// The latest whole second chrono represents: the last second of the year
/// 262142 (its latest year), in seconds from the epoch.
pub const CALENDAR_MAX_SECS: i64 = 8_210_266_876_799;

/// Whether `secs` seconds from the epoch fall in chrono's range of dates.
pub open spec fn calendar_in_range(secs: int) -> bool {
    CALENDAR_MIN_SECS <= secs <= CALENDAR_MAX_SECS
}

/// Whether `DateTime::from_timestamp(secs, nanos)` gives a time: `secs` in
/// range, and `nanos` below a second, or below two seconds on the last
/// second of a minute (a leap second).
pub open spec fn calendar_valid(secs: int, nanos: int) -> bool {
    &&& calendar_in_range(secs)
    &&& (nanos < 1_000_000_000 || (nanos < 2_000_000_000 && secs % 60 == 59))
}

/// Whether chrono can represent the time `t`.
pub open spec fn representable(t: Timestamp) -> bool {
    calendar_valid(t.secs as int, t.nanos as int)
}

/// `DateTime::checked_sub_signed` of `delta` seconds from the time
/// `secs`, `nanos`. Outside a leap second the result is exactly `delta`
/// seconds earlier with the same nanoseconds, and it is present exactly
/// when both times fall in chrono's range of dates. Within a leap second
/// (`nanos` of a second or more) the result is left unsaid.
#[verifier::external_body]
fn secs_before(secs: i64, nanos: u32, delta: i64) -> (r: Option<(i64, u32)>)
    requires
        -DELTA_MAX_SECS <= delta <= DELTA_MAX_SECS,
    ensures
        r matches Some(t) ==> (nanos < 1_000_000_000 ==> t.0 == secs - delta && t.1 == nanos),
        nanos < 1_000_000_000 ==> (r is Some <==> (calendar_in_range(secs as int)
            && calendar_in_range(secs - delta))),
{
    let t = chrono::DateTime::from_timestamp(secs, nanos)?;
    let d = chrono::TimeDelta::seconds(delta);
    let r = t.checked_sub_signed(d)?;
    Some((r.timestamp(), r.timestamp_subsec_nanos()))
}

/// The cutoff of a clean: `days` whole days before `now` (the day count
/// taken as an `i64`, as a cast does). `None` when that many days do not
/// fit in a `TimeDelta`, or the date is out of range.
pub fn clean_cutoff(now: Timestamp, days: u64) -> (r: Option<Timestamp>)
    ensures
        !(-DELTA_MAX_SECS <= (days as i64) * 86400 <= DELTA_MAX_SECS) ==> r is None,
        r matches Some(t) ==> (now.nanos < 1_000_000_000 ==> t.secs == now.secs - (days as i64)
            * 86400 && t.nanos == now.nanos),
        now.nanos < 1_000_000_000 ==> (r is Some <==> (-DELTA_MAX_SECS <= (days as i64) * 86400
            <= DELTA_MAX_SECS && calendar_in_range(now.secs as int) && calendar_in_range(
            now.secs - (days as i64) * 86400,
        ))),
{
    let d = days as i64;
    match whole_days_secs(d) {
        Some(delta) => match secs_before(now.secs, now.nanos, delta) {
            Some((secs, nanos)) => Some(Timestamp { secs, nanos }),
            None => None,
        },
        None => None,
    }
}

// ---------------------------------------------------------------------------
// Listing
// ---------------------------------------------------------------------------

/// What chrono shows for a timestamp with the format `%Y-%m-%d %H:%M:%S`
/// (in UTC); none for a timestamp that chrono cannot represent.
pub uninterp spec fn calendar_text(secs: i64, nanos: u32) -> Option<Seq<char>>;

/// `DateTime::<Utc>::from_timestamp(secs, nanos)` formatted with
/// `%Y-%m-%d %H:%M:%S`: the result is [`calendar_text`] of the arguments,
/// present exactly when chrono represents the time ([`calendar_valid`]);
/// the calendar arithmetic is left unsaid.
#[verifier::external_body]
fn format_time(secs: i64, nanos: u32) -> (r: Option<String>)
    ensures
        opt_text(r) == calendar_text(secs, nanos),
        r is Some <==> calendar_valid(secs as int, nanos as int),
{
    match chrono::DateTime::from_timestamp(secs, nanos) {
        Some(t) => Some(t.format("%Y-%m-%d %H:%M:%S").to_string()),
        None => None,
    }
}

/// A row of the session table: id, name, status, shell and start time in
/// columns of 10, 15, 10 and 8 characters.
pub open spec fn row_text(
    id: Seq<char>,
    name: Seq<char>,
    status: Seq<char>,
    shell: Seq<char>,
    started: Seq<char>,
) -> Seq<char> {
    padded(id, 10) + seq![' '] + padded(name, 15) + seq![' '] + padded(status, 10) + seq![' ']
        + padded(shell, 8) + seq![' '] + started
}

/// The width a field takes in its column: the column's width, or the
/// field's own length where it is longer.
pub open spec fn column_width(x: Seq<char>, width: nat) -> int {
    if x.len() < width {
        width as int
    } else {
        x.len() as int
    }
}

/// A table row keeps every field whole, each at the start of its column:
/// the id first, then the name, status and shell each one space after the
/// column before it (which is as wide as its field where the field is
/// longer), and the start time last.
pub proof fn lemma_row_keeps_fields(
    id: Seq<char>,
    name: Seq<char>,
    status: Seq<char>,
    shell: Seq<char>,
    started: Seq<char>,
)
    ensures
        ({
            let row = row_text(id, name, status, shell, started);
            let o1 = column_width(id, 10) + 1;
            let o2 = o1 + column_width(name, 15) + 1;
            let o3 = o2 + column_width(status, 10) + 1;
            let o4 = o3 + column_width(shell, 8) + 1;
            &&& row.len() == o4 + started.len()
            &&& row.subrange(0, id.len() as int) == id
            &&& row.subrange(o1, o1 + name.len()) == name
            &&& row.subrange(o2, o2 + status.len()) == status
            &&& row.subrange(o3, o3 + shell.len()) == shell
            &&& row.subrange(o4, row.len() as int) == started
        }),
{
    lemma_padded_keeps_text(id, 10);
    lemma_padded_keeps_text(name, 15);
    lemma_padded_keeps_text(status, 10);
    lemma_padded_keeps_text(shell, 8);
    let a = padded(id, 10) + seq![' '];
    let b = padded(name, 15) + seq![' '];
    let c = padded(status, 10) + seq![' '];
    let d = padded(shell, 8) + seq![' '];
    let row = row_text(id, name, status, shell, started);
    assert(row =~= a + b + c + d + started);
    let o1 = a.len() as int;
    let o2 = o1 + b.len();
    let o3 = o2 + c.len();
    let o4 = o3 + d.len();
    assert(row.subrange(0, id.len() as int) =~= padded(id, 10).take(id.len() as int));
    assert(row.subrange(o1, o1 + name.len()) =~= padded(name, 15).take(name.len() as int));
    assert(row.subrange(o2, o2 + status.len()) =~= padded(status, 10).take(status.len() as int));
    assert(row.subrange(o3, o3 + shell.len()) =~= padded(shell, 8).take(shell.len() as int));
    assert(row.subrange(o4, row.len() as int) =~= started);
}

/// The name shown for a session: its name, or `-`.
pub open spec fn shown_name(m: SessionMeta) -> Seq<char> {
    match m.name {
        Some(n) => n@,
        None => seq!['-'],
    }
}

/// The table of sessions, newest first: a header, a rule of 70 dashes and
/// a row for each session; a single line saying so when there are none.
/// None when a start time cannot be shown.
pub open spec fn table_lines(s: Seq<SessionMeta>) -> Option<Seq<Seq<char>>> {
    let sorted = newest_first(s);
    if s.len() == 0 {
        Some(seq!["No sessions found."@])
    } else if forall|i: int| 0 <= i < sorted.len() ==> #[trigger] calendar_text(
        sorted[i].started_at.secs,
        sorted[i].started_at.nanos,
    ) is Some {
        Some(
            seq![
                row_text("ID"@, "Name"@, "Status"@, "Shell"@, "Started"@),
                Seq::new(70, |i: int| '-'),
            ] + Seq::new(
                sorted.len(),
                |i: int|
                    row_text(
                        sorted[i].id@,
                        shown_name(sorted[i]),
                        sorted[i].status@,
                        sorted[i].shell@,
                        calendar_text(sorted[i].started_at.secs, sorted[i].started_at.nanos)->0,
                    ),
            ),
        )
    } else {
        None
    }
}

/// A table row.
fn row(id: &str, name: &str, status: &str, shell: &str, started: &str) -> (r: String)
    ensures
        r@ == row_text(id@, name@, status@, shell@, started@),
{
    let mut v: Vec<char> = Vec::new();
    push_padded(&mut v, id, 10);
    v.push(' ');
    push_padded(&mut v, name, 15);
    v.push(' ');
    push_padded(&mut v, status, 10);
    v.push(' ');
    push_padded(&mut v, shell, 8);
    v.push(' ');
    push_text(&mut v, started);
    assert(v@ =~= row_text(id@, name@, status@, shell@, started@));
    string_from_chars(v.as_slice())
}

/// The lines that list the sessions.
pub fn session_table(sessions: Vec<SessionMeta>) -> (r: Option<Vec<String>>)
    ensures
        match r {
            Some(v) => table_lines(sessions@) == Some(texts_view(v@)),
            None => table_lines(sessions@) is None,
        },
        (forall|i: int| 0 <= i < sessions@.len() ==> representable(#[trigger] sessions@[i].started_at))
            ==> r is Some,
{
    if sessions.len() == 0 {
        let mut v: Vec<String> = Vec::new();
        v.push("No sessions found.".to_owned());
        assert(texts_view(v@) =~= seq!["No sessions found."@]);
        return Some(v);
    }
    let ghost given = sessions@;
    let sorted = sort_newest_first(sessions);
    proof {
        lemma_newest_first_sorts(given);
    }
    let mut lines: Vec<String> = Vec::new();
    lines.push(row("ID", "Name", "Status", "Shell", "Started"));
    let mut dashes: Vec<char> = Vec::new();
    let mut k: usize = 0;
    while k < 70
        invariant
            k <= 70,
            dashes@ == Seq::new(k as nat, |i: int| '-'),
        decreases 70 - k,
    {
        dashes.push('-');
        k += 1;
        assert(dashes@ =~= Seq::new(k as nat, |i: int| '-'));
    }
    lines.push(string_from_chars(dashes.as_slice()));
    let mut i: usize = 0;
    while i < sorted.len()
        invariant
            i <= sorted@.len(),
            given == sessions@,
            newest_first(given).to_multiset() == given.to_multiset(),
            sorted@ == newest_first(given),
            lines@.len() == i + 2,
            texts_view(lines@).take(2) == seq![
                row_text("ID"@, "Name"@, "Status"@, "Shell"@, "Started"@),
                Seq::new(70, |j: int| '-'),
            ],
            forall|j: int|
                0 <= j < i ==> calendar_text(
                    #[trigger] sorted@[j].started_at.secs,
                    sorted@[j].started_at.nanos,
                ) is Some,
            forall|j: int|
                0 <= j < i ==> #[trigger] lines@[j + 2]@ == row_text(
                    sorted@[j].id@,
                    shown_name(sorted@[j]),
                    sorted@[j].status@,
                    sorted@[j].shell@,
                    calendar_text(sorted@[j].started_at.secs, sorted@[j].started_at.nanos)->0,
                ),
        decreases sorted@.len() - i,
    {
        let m = &sorted[i];
        let started = match format_time(m.started_at.secs, m.started_at.nanos) {
            Some(t) => t,
            None => {
                proof {
                    assert(sorted@.len() > 0);
                    let ns = newest_first(given);
                    assert(ns[i as int] == sorted@[i as int]);
                    assert(calendar_text(ns[i as int].started_at.secs, ns[i as int].started_at.nanos) is None);
                    assert(given.len() > 0);
                    assert(table_lines(given) is None);
                    broadcast use vstd::seq_lib::group_to_multiset_ensures;

                    assert(ns.contains(ns[i as int]));
                    assert(given.to_multiset().count(ns[i as int]) > 0);
                    assert(given.contains(ns[i as int]));
                    if forall|q: int|
                        0 <= q < sessions@.len() ==> representable(#[trigger] sessions@[q].started_at) {
                        let k = choose|k: int| 0 <= k < given.len() && given[k] == ns[i as int];
                        assert(representable(sessions@[k].started_at));
                        assert(false);
                    }
                }
                return None;
            },
        };
        let line = match &m.name {
            Some(n) => row(m.id.as_str(), n.as_str(), m.status.as_str(), m.shell.as_str(), started.as_str()),
            None => row(m.id.as_str(), "-", m.status.as_str(), m.shell.as_str(), started.as_str()),
        };
        proof {
            reveal_strlit("-");
        }
        let ghost before = lines@;
        lines.push(line);
        assert(texts_view(lines@).take(2) =~= texts_view(before).take(2));
        i += 1;
    }
    let ghost expected = seq![
        row_text("ID"@, "Name"@, "Status"@, "Shell"@, "Started"@),
        Seq::new(70, |i: int| '-'),
    ] + Seq::new(
        sorted@.len(),
        |i: int|
            row_text(
                sorted@[i].id@,
                shown_name(sorted@[i]),
                sorted@[i].status@,
                sorted@[i].shell@,
                calendar_text(sorted@[i].started_at.secs, sorted@[i].started_at.nanos)->0,
            ),
    );
    assert forall|j: int| 0 <= j < expected.len() implies texts_view(lines@)[j] == expected[j] by {
        if j < 2 {
            assert(texts_view(lines@).take(2)[j] == texts_view(lines@)[j]);
        } else {
            assert(lines@[(j - 2) + 2]@ == expected[j]);
        }
    }
    assert(texts_view(lines@) =~= expected);
    Some(lines)
}

} // verus!
