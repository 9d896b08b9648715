//! Character-level text handling: whitespace trimming, line splitting and
//! joining, and the conversions between `&str`, `String` and `Vec<char>`.
use vstd::prelude::*;

verus! {

// ---------------------------------------------------------------------------
// Conversions
// ---------------------------------------------------------------------------

/// The characters of `s`, in order.
pub fn chars_of(s: &str) -> (v: Vec<char>)
    ensures
        v@ == s@,
{
    let mut v: Vec<char> = Vec::new();
    for c in it: s.chars()
        invariant
            v@ == it.seq().take(it.index() as int),
            it.seq() == s@,
    {
        v.push(c);
    }
    v
}

/// Collects characters into a `String` (`FromIterator<char>` for `String`):
/// the string holds exactly the given characters, in order.
#[verifier::external_body]
pub(crate) fn string_from_chars(chars: &[char]) -> (s: String)
    ensures
        s@ == chars@,
{
    chars.iter().collect()
}

/// Whether two strings hold the same characters.
pub fn same_text(a: &str, b: &str) -> (r: bool)
    ensures
        r == (a@ == b@),
{
    let x = chars_of(a);
    let y = chars_of(b);
    if x.len() != y.len() {
        return false;
    }
    let mut i: usize = 0;
    while i < x.len()
        invariant
            x@ == a@,
            y@ == b@,
            x.len() == y.len(),
            i <= x.len(),
            forall|j: int| 0 <= j < i ==> x@[j] == y@[j],
        decreases x.len() - i,
    {
        if x[i] != y[i] {
            return false;
        }
        i += 1;
    }
    assert(x@ =~= y@);
    true
}

// ---------------------------------------------------------------------------
// Whitespace
// ---------------------------------------------------------------------------

/// The characters that `char::is_whitespace` accepts: the Unicode
/// `White_Space` property.
pub open spec fn is_ws(c: char) -> bool {
    let v = c as u32;
    ||| 0x09 <= v <= 0x0D
    ||| v == 0x20
    ||| v == 0x85
    ||| v == 0xA0
    ||| v == 0x1680
    ||| 0x2000 <= v <= 0x200A
    ||| v == 0x2028
    ||| v == 0x2029
    ||| v == 0x202F
    ||| v == 0x205F
    ||| v == 0x3000
}

/// Whether `c` is a whitespace character.
pub fn is_whitespace(c: char) -> (r: bool)
    ensures
        r == is_ws(c),
{
    let v = c as u32;
    (0x09 <= v && v <= 0x0D) || v == 0x20 || v == 0x85 || v == 0xA0 || v == 0x1680 || (0x2000 <= v
        && v <= 0x200A) || v == 0x2028 || v == 0x2029 || v == 0x202F || v == 0x205F || v == 0x3000
}

/// `s` without its leading whitespace.
pub open spec fn trim_start_seq(s: Seq<char>) -> Seq<char>
    decreases s.len(),
{
    if s.len() > 0 && is_ws(s[0]) {
        trim_start_seq(s.drop_first())
    } else {
        s
    }
}

/// `s` without its trailing whitespace.
pub open spec fn trim_end_seq(s: Seq<char>) -> Seq<char>
    decreases s.len(),
{
    if s.len() > 0 && is_ws(s.last()) {
        trim_end_seq(s.drop_last())
    } else {
        s
    }
}

/// `s` without leading and trailing whitespace (what `str::trim` gives).
pub open spec fn trimmed(s: Seq<char>) -> Seq<char> {
    trim_end_seq(trim_start_seq(s))
}

proof fn lemma_trim_start_from(s: Seq<char>, i: int)
    requires
        0 <= i <= s.len(),
        forall|j: int| 0 <= j < i ==> is_ws(#[trigger] s[j]),
    ensures
        trim_start_seq(s) == trim_start_seq(s.subrange(i, s.len() as int)),
    decreases i,
{
    if i > 0 {
        assert(s.drop_first().subrange(i - 1, s.drop_first().len() as int) =~= s.subrange(
            i,
            s.len() as int,
        ));
        assert forall|j: int| 0 <= j < i - 1 implies is_ws(#[trigger] s.drop_first()[j]) by {
            assert(s.drop_first()[j] == s[j + 1]);
        }
        lemma_trim_start_from(s.drop_first(), i - 1);
    } else {
        assert(s.subrange(0, s.len() as int) =~= s);
    }
}

proof fn lemma_trim_end_to(s: Seq<char>, k: int)
    requires
        0 <= k <= s.len(),
        forall|j: int| k <= j < s.len() ==> is_ws(#[trigger] s[j]),
    ensures
        trim_end_seq(s) == trim_end_seq(s.subrange(0, k)),
    decreases s.len() - k,
{
    if k < s.len() {
        assert(s.drop_last().subrange(0, k) =~= s.subrange(0, k));
        lemma_trim_end_to(s.drop_last(), k);
    } else {
        assert(s.subrange(0, s.len() as int) =~= s);
    }
}

/// `s` neither starts nor ends with whitespace.
pub open spec fn is_trimmed(s: Seq<char>) -> bool {
    s.len() == 0 || (!is_ws(s[0]) && !is_ws(s.last()))
}

proof fn lemma_trim_start_head(s: Seq<char>)
    ensures
        trim_start_seq(s).len() == 0 || !is_ws(trim_start_seq(s)[0]),
    decreases s.len(),
{
    if s.len() > 0 && is_ws(s[0]) {
        lemma_trim_start_head(s.drop_first());
    }
}

proof fn lemma_trim_end_prefix(s: Seq<char>)
    ensures
        trim_end_seq(s).len() <= s.len(),
        forall|i: int| 0 <= i < trim_end_seq(s).len() ==> #[trigger] trim_end_seq(s)[i] == s[i],
        trim_end_seq(s).len() == 0 || !is_ws(trim_end_seq(s).last()),
    decreases s.len(),
{
    if s.len() > 0 && is_ws(s.last()) {
        lemma_trim_end_prefix(s.drop_last());
    }
}

/// What `trimmed` gives neither starts nor ends with whitespace.
pub proof fn lemma_trimmed_is_trimmed(s: Seq<char>)
    ensures
        is_trimmed(trimmed(s)),
{
    lemma_trim_start_head(s);
    lemma_trim_end_prefix(trim_start_seq(s));
}

/// Trimming text that neither starts nor ends with whitespace leaves it
/// as it is.
pub proof fn lemma_trimmed_fixed(s: Seq<char>)
    requires
        is_trimmed(s),
    ensures
        trimmed(s) == s,
{
}

/// Trimming twice is trimming once.
pub proof fn lemma_trimmed_idempotent(s: Seq<char>)
    ensures
        trimmed(trimmed(s)) == trimmed(s),
{
    lemma_trimmed_is_trimmed(s);
    lemma_trimmed_fixed(trimmed(s));
}

/// `s` with leading and trailing whitespace removed.
pub fn trim_chars(s: &[char]) -> (r: Vec<char>)
    ensures
        r@ == trimmed(s@),
{
    let n = s.len();
    let mut i: usize = 0;
    while i < n && is_whitespace(s[i])
        invariant
            n == s@.len(),
            i <= n,
            forall|j: int| 0 <= j < i ==> is_ws(#[trigger] s@[j]),
        decreases n - i,
    {
        i += 1;
    }
    proof {
        lemma_trim_start_from(s@, i as int);
    }
    let ghost rest = s@.subrange(i as int, n as int);
    assert(trim_start_seq(rest) == rest);
    let mut k: usize = n;
    while k > i && is_whitespace(s[k - 1])
        invariant
            n == s@.len(),
            i <= k <= n,
            rest == s@.subrange(i as int, n as int),
            forall|j: int| k <= j < n ==> is_ws(#[trigger] s@[j]),
        decreases k,
    {
        k -= 1;
    }
    proof {
        assert forall|j: int| k - i <= j < rest.len() implies is_ws(#[trigger] rest[j]) by {
            assert(rest[j] == s@[j + i]);
        }
        lemma_trim_end_to(rest, k - i);
        assert(rest.subrange(0, k - i) =~= s@.subrange(i as int, k as int));
    }
    let mut r: Vec<char> = Vec::new();
    let mut j: usize = i;
    while j < k
        invariant
            n == s@.len(),
            i <= j <= k <= n,
            r@ == s@.subrange(i as int, j as int),
        decreases k - j,
    {
        r.push(s[j]);
        j += 1;
        assert(r@ =~= s@.subrange(i as int, j as int));
    }
    r
}

/// `s` with leading and trailing whitespace removed (`str::trim`).
pub fn trim(s: &str) -> (r: String)
    ensures
        r@ == trimmed(s@),
{
    let cs = chars_of(s);
    let t = trim_chars(cs.as_slice());
    string_from_chars(t.as_slice())
}

// ---------------------------------------------------------------------------
// Lines
// ---------------------------------------------------------------------------

/// The number of characters before the first `'\n'` of `s` (all of them if
/// there is none).
pub open spec fn line_len(s: Seq<char>) -> nat
    decreases s.len(),
{
    if s.len() == 0 || s[0] == '\n' {
        0
    } else {
        1 + line_len(s.drop_first())
    }
}

/// A line without the `'\r'` that ended it before its `'\n'`.
pub open spec fn strip_cr(l: Seq<char>) -> Seq<char> {
    if l.len() > 0 && l.last() == '\r' {
        l.drop_last()
    } else {
        l
    }
}

/// The lines of `s` as `str::lines` yields them: split at each `'\n'`, a
/// `'\r'` right before a `'\n'` dropped, and no empty line after a final
/// `'\n'`.
pub open spec fn lines(s: Seq<char>) -> Seq<Seq<char>>
    decreases s.len(),
{
    if s.len() == 0 {
        seq![]
    } else if line_len(s) >= s.len() {
        seq![s]
    } else {
        seq![strip_cr(s.take(line_len(s) as int))].add(lines(s.skip(line_len(s) + 1int)))
    }
}

/// The lines of `ls` joined with `'\n'` between them.
pub open spec fn join_lines(ls: Seq<Seq<char>>) -> Seq<char>
    decreases ls.len(),
{
    if ls.len() == 0 {
        seq![]
    } else if ls.len() == 1 {
        ls[0]
    } else {
        join_lines(ls.drop_last()) + seq!['\n'] + ls.last()
    }
}

/// The views of a list of lines.
pub open spec fn lines_view(v: Seq<Vec<char>>) -> Seq<Seq<char>> {
    v.map_values(|l: Vec<char>| l@)
}

proof fn lemma_line_len_at(s: Seq<char>, k: int)
    requires
        0 <= k <= s.len(),
        forall|j: int| 0 <= j < k ==> #[trigger] s[j] != '\n',
        k == s.len() || s[k] == '\n',
    ensures
        line_len(s) == k,
    decreases k,
{
    if k > 0 {
        assert forall|j: int| 0 <= j < k - 1 implies #[trigger] s.drop_first()[j] != '\n' by {
            assert(s.drop_first()[j] == s[j + 1]);
        }
        lemma_line_len_at(s.drop_first(), k - 1);
    }
}

/// Copies `s[from..to]`.
fn copy_range(s: &[char], from: usize, to: usize) -> (r: Vec<char>)
    requires
        from <= to <= s@.len(),
    ensures
        r@ == s@.subrange(from as int, to as int),
{
    let mut r: Vec<char> = Vec::new();
    let mut j = from;
    while j < to
        invariant
            from <= j <= to <= s@.len(),
            r@ == s@.subrange(from as int, j as int),
        decreases to - j,
    {
        r.push(s[j]);
        j += 1;
        assert(r@ =~= s@.subrange(from as int, j as int));
    }
    r
}

/// Splits `s` into its lines (`str::lines`).
pub fn split_lines(s: &[char]) -> (r: Vec<Vec<char>>)
    ensures
        lines_view(r@) == lines(s@),
{
    let n = s.len();
    let mut out: Vec<Vec<char>> = Vec::new();
    let mut start: usize = 0;
    let mut i: usize = 0;
    assert(s@.skip(0) =~= s@);
    while i < n
        invariant
            n == s@.len(),
            start <= i <= n,
            forall|j: int| start <= j < i ==> #[trigger] s@[j] != '\n',
            lines(s@) == lines_view(out@) + lines(s@.skip(start as int)),
        decreases n - i,
    {
        if s[i] == '\n' {
            let ghost rest = s@.skip(start as int);
            proof {
                assert forall|j: int| 0 <= j < i - start implies #[trigger] rest[j] != '\n' by {
                    assert(rest[j] == s@[j + start]);
                }
                lemma_line_len_at(rest, i - start);
                assert(rest.take(i - start) =~= s@.subrange(start as int, i as int));
                assert(rest.skip(i - start + 1) =~= s@.skip(i + 1));
            }
            let mut line = copy_range(s, start, i);
            if line.len() > 0 && line[line.len() - 1] == '\r' {
                line.pop();
            }
            assert(line@ == strip_cr(s@.subrange(start as int, i as int)));
            let ghost before = out@;
            out.push(line);
            assert(lines_view(out@) =~= lines_view(before).push(line@));
            start = i + 1;
        }
        i += 1;
    }
    let ghost rest = s@.skip(start as int);
    if start < n {
        proof {
            assert forall|j: int| 0 <= j < n - start implies #[trigger] rest[j] != '\n' by {
                assert(rest[j] == s@[j + start]);
            }
            lemma_line_len_at(rest, n - start);
        }
        let line = copy_range(s, start, n);
        assert(line@ =~= rest);
        let ghost before = out@;
        out.push(line);
        assert(lines_view(out@) =~= lines_view(before).push(line@));
        assert(lines(rest) == seq![rest]);
    } else {
        assert(rest.len() == 0);
    }
    assert(lines_view(out@) =~= lines(s@));
    out
}

/// The lines `ls[from..]` joined with `'\n'` between them.
pub fn join_from(ls: &[Vec<char>], from: usize) -> (r: Vec<char>)
    requires
        from <= ls@.len(),
    ensures
        r@ == join_lines(lines_view(ls@).skip(from as int)),
{
    let mut r: Vec<char> = Vec::new();
    let mut i = from;
    assert(lines_view(ls@).skip(from as int).take(0) =~= Seq::<Seq<char>>::empty());
    while i < ls.len()
        invariant
            from <= i <= ls@.len(),
            r@ == join_lines(lines_view(ls@).skip(from as int).take(i - from)),
        decreases ls@.len() - i,
    {
        let ghost prev = lines_view(ls@).skip(from as int).take(i - from);
        let ghost next = lines_view(ls@).skip(from as int).take(i - from + 1);
        assert(next.drop_last() =~= prev);
        assert(next.last() == ls@[i as int]@);
        if i > from {
            r.push('\n');
        }
        let line = &ls[i];
        let mut j: usize = 0;
        let ghost base = r@;
        while j < line.len()
            invariant
                j <= line@.len(),
                r@ == base + line@.take(j as int),
            decreases line@.len() - j,
        {
            r.push(line[j]);
            j += 1;
            assert(r@ =~= base + line@.take(j as int));
        }
        assert(line@.take(line@.len() as int) =~= line@);
        if i == from {
            assert(next.len() == 1);
            assert(r@ =~= next[0]);
        }
        i += 1;
    }
    assert(lines_view(ls@).skip(from as int).take(ls@.len() - from) =~= lines_view(ls@).skip(
        from as int,
    ));
    r
}

/// The last `n` lines of `s` (all of them when there are fewer), joined with
/// `'\n'`.
pub open spec fn tail_text(s: Seq<char>, n: nat) -> Seq<char> {
    let ls = lines(s);
    let start = if ls.len() > n {
        ls.len() - n
    } else {
        0
    };
    join_lines(ls.skip(start))
}

/// The last `n` lines of `text`, joined with `'\n'`: what is shown for a
/// `--tail n` read.
pub fn tail_lines(text: &str, n: usize) -> (r: String)
    ensures
        r@ == tail_text(text@, n as nat),
{
    let cs = chars_of(text);
    let ls = split_lines(cs.as_slice());
    assert(ls@.len() == lines(cs@).len()) by {
        assert(lines_view(ls@).len() == ls@.len());
    }
    let start = if ls.len() > n {
        ls.len() - n
    } else {
        0
    };
    let joined = join_from(ls.as_slice(), start);
    string_from_chars(joined.as_slice())
}

/// The lines of `text` (`str::lines`), each as a `String`.
pub fn lines_of(text: &str) -> (r: Vec<String>)
    ensures
        r@.len() == lines(text@).len(),
        forall|i: int| 0 <= i < r@.len() ==> #[trigger] r@[i]@ == lines(text@)[i],
{
    let cs = chars_of(text);
    let ls = split_lines(cs.as_slice());
    let mut out: Vec<String> = Vec::new();
    let mut i: usize = 0;
    while i < ls.len()
        invariant
            i <= ls@.len(),
            lines_view(ls@) == lines(text@),
            out@.len() == i,
            forall|j: int| 0 <= j < i ==> #[trigger] out@[j]@ == lines(text@)[j],
        decreases ls@.len() - i,
    {
        assert(lines_view(ls@)[i as int] == ls@[i as int]@);
        out.push(string_from_chars(ls[i].as_slice()));
        i += 1;
    }
    out
}

/// The number of lines of `text` (`str::lines().count()`).
pub fn count_lines(text: &str) -> (r: usize)
    ensures
        r == lines(text@).len(),
{
    let cs = chars_of(text);
    let ls = split_lines(cs.as_slice());
    assert(lines_view(ls@).len() == ls@.len());
    ls.len()
}


// ---------------------------------------------------------------------------
// Decimal integers
// ---------------------------------------------------------------------------

/// Whether `c` is one of the ASCII digits `'0'..='9'`.
pub open spec fn is_digit(c: char) -> bool {
    0x30 <= c as u32 <= 0x39
}

/// Whether every character of `s` is an ASCII digit.
pub open spec fn all_digits(s: Seq<char>) -> bool {
    forall|i: int| 0 <= i < s.len() ==> is_digit(#[trigger] s[i])
}

/// The value of a string of decimal digits.
pub open spec fn digits_value(s: Seq<char>) -> int
    decreases s.len(),
{
    if s.len() == 0 {
        0
    } else {
        digits_value(s.drop_last()) * 10 + (s.last() as u32 - 0x30)
    }
}

/// What `i32::from_str` gives for `s`: an optional `'+'` or `'-'`, then at
/// least one ASCII digit and nothing else, with a value that fits in `i32`.
pub open spec fn parsed_i32(s: Seq<char>) -> Option<i32> {
    if s.len() == 0 {
        None
    } else {
        let signed = s[0] == '+' || s[0] == '-';
        let ds = if signed {
            s.drop_first()
        } else {
            s
        };
        let v = if s[0] == '-' {
            -digits_value(ds)
        } else {
            digits_value(ds)
        };
        if ds.len() > 0 && all_digits(ds) && i32::MIN <= v <= i32::MAX {
            Some(v as i32)
        } else {
            None
        }
    }
}

proof fn lemma_digits_value_nonneg(s: Seq<char>)
    requires
        all_digits(s),
    ensures
        digits_value(s) >= 0,
    decreases s.len(),
{
    if s.len() > 0 {
        assert(all_digits(s.drop_last())) by {
            assert forall|i: int| 0 <= i < s.drop_last().len() implies is_digit(
                #[trigger] s.drop_last()[i],
            ) by {
                assert(s.drop_last()[i] == s[i]);
            }
        }
        lemma_digits_value_nonneg(s.drop_last());
        assert(is_digit(s[s.len() - 1]));
    }
}

proof fn lemma_digits_value_grows(s: Seq<char>, k: int)
    requires
        all_digits(s),
        0 <= k <= s.len(),
    ensures
        digits_value(s.take(k)) <= digits_value(s),
    decreases s.len() - k,
{
    if k < s.len() {
        let t = s.take(k + 1);
        assert(t.drop_last() =~= s.take(k));
        assert(all_digits(t)) by {
            assert forall|i: int| 0 <= i < t.len() implies is_digit(#[trigger] t[i]) by {
                assert(t[i] == s[i]);
            }
        }
        assert(all_digits(s.take(k))) by {
            assert forall|i: int| 0 <= i < k implies is_digit(#[trigger] s.take(k)[i]) by {
                assert(s.take(k)[i] == s[i]);
            }
        }
        lemma_digits_value_nonneg(s.take(k));
        assert(is_digit(t.last()));
        lemma_digits_value_grows(s, k + 1);
    } else {
        assert(s.take(k) =~= s);
    }
}

/// Parses a decimal `i32` as `i32::from_str` does.
pub fn parse_i32(s: &[char]) -> (r: Option<i32>)
    ensures
        r == parsed_i32(s@),
{
    let n = s.len();
    if n == 0 {
        return None;
    }
    let signed = s[0] == '+' || s[0] == '-';
    let negative = s[0] == '-';
    let start: usize = if signed {
        1
    } else {
        0
    };
    let ghost ds = if signed {
        s@.drop_first()
    } else {
        s@
    };
    assert(ds =~= s@.skip(start as int));
    if start == n {
        return None;
    }
    let limit: i64 = 0x8000_0000;
    let mut acc: i64 = 0;
    let mut i: usize = start;
    assert(ds.take(0) =~= Seq::<char>::empty());
    while i < n
        invariant
            n == s@.len(),
            start <= i <= n,
            ds == s@.skip(start as int),
            acc == digits_value(ds.take(i - start)),
            0 <= acc <= limit,
            limit == 0x8000_0000,
            all_digits(ds.take(i - start)),
            n > 0,
            signed == (s@[0] == '+' || s@[0] == '-'),
            negative == (s@[0] == '-'),
            start == (if signed { 1usize } else { 0usize }),
            ds == (if signed { s@.drop_first() } else { s@ }),
        decreases n - i,
    {
        let c = s[i];
        let v = c as u32;
        if v < 0x30 || v > 0x39 {
            assert(ds[i - start] == s@[i as int]);
            assert(!is_digit(ds[i - start]));
            assert(!all_digits(ds));
            return None;
        }
        let next = acc * 10 + (v - 0x30) as i64;
        let ghost t = ds.take(i - start + 1);
        assert(t.drop_last() =~= ds.take(i - start));
        assert(t.last() == c);
        assert(all_digits(t)) by {
            assert forall|j: int| 0 <= j < t.len() implies is_digit(#[trigger] t[j]) by {
                if j < t.len() - 1 {
                    assert(t[j] == ds.take(i - start)[j]);
                }
            }
        }
        if next > limit {
            proof {
                if all_digits(ds) {
                    lemma_digits_value_grows(ds, i - start + 1);
                }
            }
            return None;
        }
        acc = next;
        i += 1;
    }
    assert(ds.take(n - start) =~= ds);
    let value: i64 = if negative {
        -acc
    } else {
        acc
    };
    if value < -0x8000_0000 || value > 0x7fff_ffff {
        None
    } else {
        Some(value as i32)
    }
}


// ---------------------------------------------------------------------------
// Captured terminal bytes
// ---------------------------------------------------------------------------

/// What `strip_ansi_escapes::strip` returns for `data`: the bytes with the
/// ANSI escape sequences removed.
pub uninterp spec fn ansi_stripped(data: Seq<u8>) -> Seq<u8>;

/// What `String::from_utf8_lossy` gives for `bytes`: their UTF-8 decoding,
/// with U+FFFD in place of each invalid sequence.
pub uninterp spec fn utf8_lossy(bytes: Seq<u8>) -> Seq<char>;

/// `strip_ansi_escapes::strip`: the contract claims only that the result is
/// the function of the input named [`ansi_stripped`]; which sequences the
/// crate's parser removes is left unsaid.
#[verifier::external_body]
pub(crate) fn strip_ansi(data: &[u8]) -> (r: Vec<u8>)
    ensures
        r@ == ansi_stripped(data@),
{
    strip_ansi_escapes::strip(data)
}

/// `String::from_utf8_lossy`: the result is [`utf8_lossy`] of the input, and
/// on valid UTF-8 it is exactly the decoded text (as std documents). How
/// invalid sequences are replaced is left unsaid.
#[verifier::external_body]
pub(crate) fn lossy_text(bytes: &[u8]) -> (r: String)
    ensures
        r@ == utf8_lossy(bytes@),
        vstd::utf8::valid_utf8(bytes@) ==> r@ == vstd::utf8::decode_utf8(bytes@),
{
    String::from_utf8_lossy(bytes).into_owned()
}

/// Captured bytes as text: escape sequences stripped, decoded leniently,
/// and trimmed.
pub open spec fn clean_text(raw: Seq<u8>) -> Seq<char> {
    trimmed(utf8_lossy(ansi_stripped(raw)))
}

/// Captured bytes as trimmed text, as characters.
pub fn clean_chars(raw: &[u8]) -> (r: Vec<char>)
    ensures
        r@ == clean_text(raw@),
{
    let stripped = strip_ansi(raw);
    let text = lossy_text(stripped.as_slice());
    let cs = chars_of(text.as_str());
    trim_chars(cs.as_slice())
}

// ---------------------------------------------------------------------------
// Building text
// ---------------------------------------------------------------------------

/// Appends the characters of `s` to `v`.
pub fn push_text(v: &mut Vec<char>, s: &str)
    ensures
        final(v)@ == old(v)@ + s@,
{
    let cs = chars_of(s);
    let mut i: usize = 0;
    let ghost base = v@;
    while i < cs.len()
        invariant
            i <= cs@.len(),
            cs@ == s@,
            v@ == base + cs@.take(i as int),
        decreases cs@.len() - i,
    {
        v.push(cs[i]);
        i += 1;
        assert(v@ =~= base + cs@.take(i as int));
    }
    assert(cs@.take(cs@.len() as int) =~= cs@);
}

/// `s` padded with spaces on the right to `width` characters (as the
/// format spec `{:<width}` does); unchanged when it is already as wide.
pub open spec fn padded(s: Seq<char>, width: nat) -> Seq<char> {
    if s.len() < width {
        s + Seq::new((width - s.len()) as nat, |i: int| ' ')
    } else {
        s
    }
}

/// Padding never loses text: `s` is the start of `padded(s, width)`, which
/// is `width` characters long or, for a longer `s`, exactly `s`; everything
/// after `s` is a space.
pub proof fn lemma_padded_keeps_text(s: Seq<char>, width: nat)
    ensures
        padded(s, width).len() == if s.len() < width {
            width
        } else {
            s.len()
        },
        padded(s, width).take(s.len() as int) == s,
        forall|i: int| s.len() <= i < padded(s, width).len() ==> #[trigger] padded(s, width)[i] == ' ',
{
    assert(padded(s, width).take(s.len() as int) =~= s);
}

/// Appends `s`, padded on the right to `width` characters, to `v`.
pub fn push_padded(v: &mut Vec<char>, s: &str, width: usize)
    ensures
        final(v)@ == old(v)@ + padded(s@, width as nat),
{
    let ghost base = v@;
    let cs = chars_of(s);
    push_text(v, s);
    let mut k = cs.len();
    let ghost mid = v@;
    while k < width
        invariant
            cs@.len() <= k,
            k <= width || cs@.len() >= width,
            cs@.len() >= width ==> k == cs@.len(),
            v@ == mid + Seq::new((k - cs@.len()) as nat, |i: int| ' '),
        decreases width - k,
    {
        v.push(' ');
        k += 1;
        assert(v@ =~= mid + Seq::new((k - cs@.len()) as nat, |i: int| ' '));
    }
    assert(mid == base + s@);
    if cs.len() >= width {
        assert(k == cs@.len());
        assert(Seq::new((k - cs@.len()) as nat, |i: int| ' ') =~= Seq::<char>::empty());
        assert(v@ =~= base + padded(s@, width as nat));
    } else {
        assert(v@ =~= base + padded(s@, width as nat));
    }
}

} // verus!
