//! Character-sequence primitives shared by the title extractor and the
//! content transformer: scanning for a character, whitespace trimming,
//! single-pass literal substring replacement, and conversions between
//! `str`/`String` and `Vec<char>`.

use vstd::prelude::*;
use vstd::string::*;

verus! {

/// The escape character that opens a terminal styling sequence.
pub const ESC: char = '\u{1b}';

// ---------------------------------------------------------------------------
// Scanning for a character
// ---------------------------------------------------------------------------

/// Index of the first occurrence of `c` in `s`, or `s.len()` if absent.
pub open spec fn find_char(s: Seq<char>, c: char) -> nat
    decreases s.len(),
{
    if s.len() == 0 {
        0
    } else if s[0] == c {
        0
    } else {
        (1 + find_char(s.skip(1), c)) as nat
    }
}

pub proof fn lemma_find_char(s: Seq<char>, c: char)
    ensures
        find_char(s, c) <= s.len(),
        forall|j: int| 0 <= j < find_char(s, c) ==> s[j] != c,
        find_char(s, c) < s.len() ==> s[find_char(s, c) as int] == c,
    decreases s.len(),
{
    if s.len() == 0 {
    } else if s[0] == c {
    } else {
        lemma_find_char(s.skip(1), c);
        assert forall|j: int| 0 <= j < find_char(s, c) implies s[j] != c by {
            if j > 0 {
                assert(s.skip(1)[j - 1] == s[j]);
            }
        }
        if find_char(s, c) < s.len() {
            assert(s.skip(1)[find_char(s, c) - 1] == s[find_char(s, c) as int]);
        }
    }
}

pub proof fn lemma_find_char_is(s: Seq<char>, c: char, k: int)
    requires
        0 <= k <= s.len(),
        forall|j: int| 0 <= j < k ==> s[j] != c,
        k < s.len() ==> s[k] == c,
    ensures
        find_char(s, c) == k,
    decreases s.len(),
{
    if s.len() == 0 {
    } else if s[0] == c {
        assert(k == 0);
    } else {
        assert(k >= 1);
        assert forall|j: int| 0 <= j < k - 1 implies s.skip(1)[j] != c by {
            assert(s.skip(1)[j] == s[j + 1]);
        }
        assert(k - 1 < s.skip(1).len() ==> s.skip(1)[k - 1] == c);
        lemma_find_char_is(s.skip(1), c, k - 1);
    }
}

/// Scans `v` from `from` for the first occurrence of `c`; returns its index,
/// or `v.len()` if `c` does not occur at or after `from`.
pub fn scan_to_char(v: &Vec<char>, from: usize, c: char) -> (e: usize)
    requires
        from <= v@.len(),
    ensures
        from <= e <= v@.len(),
        forall|j: int| from <= j < e ==> v@[j] != c,
        e < v@.len() ==> v@[e as int] == c,
        find_char(v@.skip(from as int), c) == e - from,
{
    let mut e = from;
    while e < v.len() && v[e] != c
        invariant
            from <= e <= v@.len(),
            forall|j: int| from <= j < e ==> v@[j] != c,
        decreases v@.len() - e,
    {
        e = e + 1;
    }
    proof {
        assert forall|j: int| 0 <= j < e - from implies v@.skip(from as int)[j] != c by {
            assert(v@.skip(from as int)[j] == v@[j + from]);
        }
        assert(e - from < v@.skip(from as int).len() ==> v@.skip(from as int)[e - from] == c);
        lemma_find_char_is(v@.skip(from as int), c, e as int - from as int);
    }
    e
}

/// Computes the end of the line that starts at `i`: the index of the next
/// newline (or the text's end), with one carriage return directly before
/// the newline excluded.  Returns the raw end and the excluded end.
pub fn line_ends(v: &Vec<char>, i: usize) -> (r: (usize, usize))
    requires
        i <= v@.len(),
    ensures
        i <= r.1 <= r.0 <= v@.len(),
        find_char(v@.skip(i as int), '\n') == r.0 - i,
        forall|j: int| i <= j < r.0 ==> v@[j] != '\n',
        r.0 < v@.len() ==> v@[r.0 as int] == '\n',
        r.0 == v@.len() ==> r.1 == r.0,
        r.0 < v@.len() ==> v@.subrange(i as int, r.1 as int) == chop_cr(
            v@.skip(i as int).take(r.0 - i),
        ),
{
    let e = scan_to_char(v, i, '\n');
    let le = if e < v.len() && e > i && v[e - 1] == '\r' {
        e - 1
    } else {
        e
    };
    proof {
        let rest = v@.skip(i as int);
        let raw = rest.take(e as int - i as int);
        assert(raw =~= v@.subrange(i as int, e as int));
        if e < v@.len() {
            if e > i && v@[e as int - 1] == '\r' {
                assert(raw.drop_last() =~= v@.subrange(i as int, e as int - 1));
                assert(chop_cr(raw) == v@.subrange(i as int, le as int));
            } else {
                assert(chop_cr(raw) == v@.subrange(i as int, le as int));
            }
        }
    }
    (e, le)
}

// ---------------------------------------------------------------------------
// Whitespace trimming
// ---------------------------------------------------------------------------

/// The characters treated as trimmable line whitespace: space, tab, and a
/// stray carriage return.  This is the intended whitespace set of the
/// library: other Unicode whitespace characters are deliberately not
/// treated as indentation, so a line indented with them is left to the
/// ordinary, non-list rules.
pub open spec fn is_ws(c: char) -> bool {
    c == ' ' || c == '\t' || c == '\r'
}

pub fn is_ws_char(c: char) -> (b: bool)
    ensures
        b == is_ws(c),
{
    c == ' ' || c == '\t' || c == '\r'
}

/// Number of leading whitespace characters of `s`.
pub open spec fn leading_ws(s: Seq<char>) -> nat
    decreases s.len(),
{
    if s.len() == 0 || !is_ws(s[0]) {
        0
    } else {
        (1 + leading_ws(s.skip(1))) as nat
    }
}

pub proof fn lemma_leading_ws(s: Seq<char>)
    ensures
        leading_ws(s) <= s.len(),
        forall|j: int| 0 <= j < leading_ws(s) ==> is_ws(s[j]),
        leading_ws(s) < s.len() ==> !is_ws(s[leading_ws(s) as int]),
    decreases s.len(),
{
    if s.len() == 0 || !is_ws(s[0]) {
    } else {
        lemma_leading_ws(s.skip(1));
        assert forall|j: int| 0 <= j < leading_ws(s) implies is_ws(s[j]) by {
            if j > 0 {
                assert(s.skip(1)[j - 1] == s[j]);
            }
        }
        if leading_ws(s) < s.len() {
            assert(s.skip(1)[leading_ws(s) - 1] == s[leading_ws(s) as int]);
        }
    }
}

pub proof fn lemma_leading_ws_is(s: Seq<char>, k: int)
    requires
        0 <= k <= s.len(),
        forall|j: int| 0 <= j < k ==> is_ws(s[j]),
        k < s.len() ==> !is_ws(s[k]),
    ensures
        leading_ws(s) == k,
    decreases s.len(),
{
    if s.len() == 0 || !is_ws(s[0]) {
        assert(k == 0);
    } else {
        assert(k >= 1);
        assert forall|j: int| 0 <= j < k - 1 implies is_ws(s.skip(1)[j]) by {
            assert(s.skip(1)[j] == s[j + 1]);
        }
        assert(k - 1 < s.skip(1).len() ==> !is_ws(s.skip(1)[k - 1]));
        lemma_leading_ws_is(s.skip(1), k - 1);
    }
}

/// Number of trailing whitespace characters of `s`.
pub open spec fn trailing_ws(s: Seq<char>) -> nat
    decreases s.len(),
{
    if s.len() == 0 || !is_ws(s[s.len() - 1]) {
        0
    } else {
        (1 + trailing_ws(s.drop_last())) as nat
    }
}

pub proof fn lemma_trailing_ws(s: Seq<char>)
    ensures
        trailing_ws(s) <= s.len(),
        forall|j: int| s.len() - trailing_ws(s) <= j < s.len() ==> is_ws(s[j]),
        trailing_ws(s) < s.len() ==> !is_ws(s[s.len() - trailing_ws(s) - 1]),
    decreases s.len(),
{
    if s.len() == 0 || !is_ws(s[s.len() - 1]) {
    } else {
        lemma_trailing_ws(s.drop_last());
        assert forall|j: int| s.len() - trailing_ws(s) <= j < s.len() implies is_ws(s[j]) by {
            if j < s.len() - 1 {
                assert(s.drop_last()[j] == s[j]);
            }
        }
        if trailing_ws(s) < s.len() {
            assert(s.drop_last()[s.len() - trailing_ws(s) - 1] == s[s.len() - trailing_ws(s) - 1]);
        }
    }
}

pub proof fn lemma_trailing_ws_is(s: Seq<char>, k: int)
    requires
        0 <= k <= s.len(),
        forall|j: int| s.len() - k <= j < s.len() ==> is_ws(s[j]),
        k < s.len() ==> !is_ws(s[s.len() - k - 1]),
    ensures
        trailing_ws(s) == k,
    decreases s.len(),
{
    if s.len() == 0 || !is_ws(s[s.len() - 1]) {
        assert(k == 0);
    } else {
        assert(k >= 1);
        assert forall|j: int| s.drop_last().len() - (k - 1) <= j < s.drop_last().len()
            implies is_ws(s.drop_last()[j]) by {
            assert(s.drop_last()[j] == s[j]);
        }
        assert(k - 1 < s.drop_last().len() ==> !is_ws(
            s.drop_last()[s.drop_last().len() - (k - 1) - 1],
        ));
        lemma_trailing_ws_is(s.drop_last(), k - 1);
    }
}

/// `s` with leading and trailing whitespace removed.
pub open spec fn trim_both(s: Seq<char>) -> Seq<char> {
    let a = s.skip(leading_ws(s) as int);
    a.take(a.len() - trailing_ws(a))
}

/// A line as `str::lines` yields it: one carriage return directly before
/// the splitting newline is removed with it.
pub open spec fn chop_cr(line: Seq<char>) -> Seq<char> {
    if line.len() > 0 && line[line.len() - 1] == '\r' {
        line.drop_last()
    } else {
        line
    }
}

/// Computes the bounds of the trimmed middle of `v[from..to]`: the returned
/// pair `(b, t)` satisfies `v[b..t] == trim_both(v[from..to])`.
pub fn trim_bounds(v: &Vec<char>, from: usize, to: usize) -> (r: (usize, usize))
    requires
        from <= to <= v@.len(),
    ensures
        from <= r.0 <= r.1 <= to,
        v@.subrange(r.0 as int, r.1 as int) == trim_both(v@.subrange(from as int, to as int)),
        r.0 == from + leading_ws(v@.subrange(from as int, to as int)),
{
    let ghost line = v@.subrange(from as int, to as int);
    let mut b = from;
    while b < to && is_ws_char(v[b])
        invariant
            from <= b <= to <= v@.len(),
            forall|j: int| from <= j < b ==> is_ws(v@[j]),
        decreases to - b,
    {
        b = b + 1;
    }
    let mut t = to;
    while t > b && is_ws_char(v[t - 1])
        invariant
            b <= t <= to <= v@.len(),
            forall|j: int| t <= j < to ==> is_ws(v@[j]),
        decreases t,
    {
        t = t - 1;
    }
    proof {
        assert forall|j: int| 0 <= j < b - from implies is_ws(line[j]) by {
            assert(line[j] == v@[j + from]);
        }
        assert(b - from < line.len() ==> !is_ws(line[b as int - from as int]));
        lemma_leading_ws_is(line, b as int - from as int);
        let a = line.skip(b as int - from as int);
        assert forall|j: int| a.len() - (to - t) <= j < a.len() implies is_ws(a[j]) by {
            assert(a[j] == v@[j + b]);
        }
        if t > b {
            assert(a[t - 1 - b] == v@[t - 1]);
            assert(!is_ws(a[a.len() - (to - t) - 1]));
        }
        lemma_trailing_ws_is(a, to as int - t as int);
        assert(v@.subrange(b as int, t as int) =~= trim_both(line));
    }
    (b, t)
}

// ---------------------------------------------------------------------------
// Single-pass literal replacement
// ---------------------------------------------------------------------------

/// Left-to-right, non-overlapping replacement of every occurrence of `pat`
/// in `s` by `rep`, as `str::replace` performs it.
pub open spec fn replace_all(s: Seq<char>, pat: Seq<char>, rep: Seq<char>) -> Seq<char>
    decreases s.len(),
{
    if pat.len() == 0 || s.len() < pat.len() {
        s
    } else if s.take(pat.len() as int) == pat {
        rep + replace_all(s.skip(pat.len() as int), pat, rep)
    } else {
        seq![s[0]] + replace_all(s.skip(1), pat, rep)
    }
}

/// True iff `pat` occurs in `s` starting at index `i`.
fn matches_at(v: &Vec<char>, i: usize, pat: &Vec<char>) -> (b: bool)
    requires
        i <= v@.len(),
    ensures
        b == (i + pat@.len() <= v@.len() && v@.subrange(
            i as int,
            i as int + pat@.len() as int,
        ) == pat@),
{
    if pat.len() > v.len() - i {
        proof {
            assert(i + pat@.len() > v@.len());
        }
        return false;
    }
    let mut k: usize = 0;
    while k < pat.len()
        invariant
            i + pat@.len() <= v@.len(),
            k <= pat@.len(),
            forall|j: int| 0 <= j < k ==> v@[i + j] == pat@[j],
        decreases pat@.len() - k,
    {
        proof {
            assert(v.len() == v@.len());
            assert(v@.len() > i as int + k as int);
        }
        if v[i + k] != pat[k] {
            proof {
                assert(v@.subrange(i as int, i as int + pat@.len() as int)[k as int] != pat@[
                    k as int]);
            }
            return false;
        }
        k = k + 1;
    }
    proof {
        assert(v@.subrange(i as int, i as int + pat@.len() as int) =~= pat@);
    }
    true
}

/// Replaces every occurrence of `pat` in `v` by `rep`, scanning once from
/// left to right.
pub fn replace_all_chars(v: &Vec<char>, pat: &Vec<char>, rep: &Vec<char>) -> (r: Vec<char>)
    requires
        pat@.len() > 0,
    ensures
        r@ == replace_all(v@, pat@, rep@),
{
    let mut out: Vec<char> = Vec::new();
    let mut i: usize = 0;
    proof {
        assert(v@.skip(0) =~= v@);
        assert(Seq::<char>::empty() + replace_all(v@, pat@, rep@) =~= replace_all(
            v@,
            pat@,
            rep@,
        ));
    }
    while i < v.len()
        invariant
            i <= v@.len(),
            pat@.len() > 0,
            replace_all(v@, pat@, rep@) == out@ + replace_all(v@.skip(i as int), pat@, rep@),
        decreases v@.len() - i,
    {
        let ghost rest = v@.skip(i as int);
        if matches_at(v, i, pat) {
            push_range(&mut out, rep, 0, rep.len());
            proof {
                assert(rest.take(pat@.len() as int) =~= v@.subrange(
                    i as int,
                    i as int + pat@.len() as int,
                ));
                assert(rest.skip(pat@.len() as int) =~= v@.skip(i as int + pat@.len() as int));
                assert(replace_all(rest, pat@, rep@) == rep@ + replace_all(
                    v@.skip(i as int + pat@.len() as int),
                    pat@,
                    rep@,
                ));
                assert(rep@.subrange(0, rep@.len() as int) =~= rep@);
            }
            i = i + pat.len();
        } else {
            out.push(v[i]);
            proof {
                if rest.len() >= pat@.len() {
                    assert(rest.take(pat@.len() as int) =~= v@.subrange(
                        i as int,
                        i as int + pat@.len() as int,
                    ));
                    assert(rest.take(pat@.len() as int) != pat@);
                    assert(rest.skip(1) =~= v@.skip(i as int + 1));
                    assert(replace_all(rest, pat@, rep@) == seq![v@[i as int]] + replace_all(
                        v@.skip(i as int + 1),
                        pat@,
                        rep@,
                    ));
                } else {
                    assert(replace_all(rest, pat@, rep@) == rest);
                    assert(rest.skip(1) =~= v@.skip(i as int + 1));
                    assert(replace_all(rest.skip(1), pat@, rep@) == rest.skip(1));
                    assert(rest =~= seq![v@[i as int]] + rest.skip(1));
                }
            }
            i = i + 1;
        }
    }
    proof {
        assert(v@.skip(i as int) =~= Seq::<char>::empty());
        assert(replace_all(v@.skip(i as int), pat@, rep@) =~= Seq::<char>::empty());
        assert(out@ + Seq::<char>::empty() =~= out@);
    }
    out
}

// ---------------------------------------------------------------------------
// Conversions between strings and character vectors
// ---------------------------------------------------------------------------

/// Collects the characters of `s` into a vector.
pub fn str_chars(s: &str) -> (v: Vec<char>)
    ensures
        v@ == s@,
{
    let n = s.unicode_len();
    let mut v: Vec<char> = Vec::new();
    let mut i: usize = 0;
    while i < n
        invariant
            n == s@.len(),
            i <= n,
            v@ == s@.take(i as int),
        decreases n - i,
    {
        v.push(s.get_char(i));
        proof {
            assert(s@.take(i as int + 1) =~= s@.take(i as int).push(s@[i as int]));
        }
        i = i + 1;
    }
    proof {
        assert(s@.take(n as int) =~= s@);
    }
    v
}

/// Relies on `String::push`: appends the given character to the end of the
/// string.
#[verifier::external_body]
pub fn push_char(s: &mut String, c: char)
    ensures
        final(s)@ == old(s)@.push(c),
{
    s.push(c);
}

/// Builds a `String` from the characters `v[from..to]`.
pub fn chars_string(v: &Vec<char>, from: usize, to: usize) -> (r: String)
    requires
        from <= to <= v@.len(),
    ensures
        r@ == v@.subrange(from as int, to as int),
{
    let mut r = String::new();
    let mut i = from;
    while i < to
        invariant
            from <= i <= to <= v@.len(),
            r@ == v@.subrange(from as int, i as int),
        decreases to - i,
    {
        push_char(&mut r, v[i]);
        proof {
            assert(v@.subrange(from as int, i as int + 1) =~= v@.subrange(
                from as int,
                i as int,
            ).push(v@[i as int]));
        }
        i = i + 1;
    }
    r
}

/// Appends the characters `v[from..to]` to `out`.
pub fn push_range(out: &mut Vec<char>, v: &Vec<char>, from: usize, to: usize)
    requires
        from <= to <= v@.len(),
    ensures
        final(out)@ == old(out)@ + v@.subrange(from as int, to as int),
{
    let mut i = from;
    while i < to
        invariant
            from <= i <= to <= v@.len(),
            out@ == old(out)@ + v@.subrange(from as int, i as int),
        decreases to - i,
    {
        out.push(v[i]);
        proof {
            assert(v@.subrange(from as int, i as int + 1) =~= v@.subrange(
                from as int,
                i as int,
            ).push(v@[i as int]));
            assert(old(out)@ + v@.subrange(from as int, i as int + 1) =~= (old(out)@ + v@.subrange(
                from as int,
                i as int,
            )).push(v@[i as int]));
        }
        i = i + 1;
    }
    proof {
        assert(out@ =~= old(out)@ + v@.subrange(from as int, to as int));
    }
}

// ---------------------------------------------------------------------------
// Escape-freedom
// ---------------------------------------------------------------------------

/// True iff `s` contains no escape control character.
pub open spec fn esc_free(s: Seq<char>) -> bool {
    forall|i: int| 0 <= i < s.len() ==> s[i] != ESC
}

/// True iff `s` contains no newline character.
pub open spec fn nl_free(s: Seq<char>) -> bool {
    forall|i: int| 0 <= i < s.len() ==> s[i] != '\n'
}

pub proof fn lemma_nl_free_concat(a: Seq<char>, b: Seq<char>)
    requires
        nl_free(a),
        nl_free(b),
    ensures
        nl_free(a + b),
{
    assert forall|i: int| 0 <= i < (a + b).len() implies (a + b)[i] != '\n' by {
        if i < a.len() {
            assert((a + b)[i] == a[i]);
        } else {
            assert((a + b)[i] == b[i - a.len()]);
        }
    }
}

pub proof fn lemma_esc_free_concat(a: Seq<char>, b: Seq<char>)
    requires
        esc_free(a),
        esc_free(b),
    ensures
        esc_free(a + b),
{
    assert forall|i: int| 0 <= i < (a + b).len() implies (a + b)[i] != ESC by {
        if i < a.len() {
            assert((a + b)[i] == a[i]);
        } else {
            assert((a + b)[i] == b[i - a.len()]);
        }
    }
}

pub proof fn lemma_esc_free_subrange(s: Seq<char>, lo: int, hi: int)
    requires
        esc_free(s),
        0 <= lo <= hi <= s.len(),
    ensures
        esc_free(s.subrange(lo, hi)),
{
    assert forall|i: int| 0 <= i < hi - lo implies s.subrange(lo, hi)[i] != ESC by {
        assert(s.subrange(lo, hi)[i] == s[i + lo]);
    }
}

} // verus!
