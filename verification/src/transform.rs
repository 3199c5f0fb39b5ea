//! The body transformations of the content transformer: the line-leading
//! star-bullet rewrite, the renumbering of ordered lists, and the stripping
//! of terminal styling sequences.
//!
//! Each transformation walks the text line by line the way `str::lines`
//! does and rejoins the lines with single newlines: a line is a maximal
//! piece free of newline characters, one carriage return directly before a
//! splitting newline goes with it, and a trailing newline of the text
//! yields no final empty line — so the result carries no trailing newline
//! and no carriage return before a newline.

use vstd::prelude::*;
use crate::text::{
    ESC, chop_cr, find_char, leading_ws, line_ends, trim_both, push_range, lemma_find_char_is,
    trim_bounds,
};

verus! {

/// The glyph replacing a line-leading `"* "` or `"- "` marker.
pub const BULLET: char = '\u{2022}';

// ---------------------------------------------------------------------------
// Star bullets
// ---------------------------------------------------------------------------

/// Rewrites a line whose trimmed form starts with `"* "`: the star after the
/// indentation becomes the bullet glyph; any other line is unchanged.  A
/// line opening with `"**"` never qualifies, since its second character is
/// not a space, and neither does a line whose star is followed by nothing
/// but whitespace, since its trimmed form ends at the star.
pub open spec fn star_bullet_line(line: Seq<char>) -> Seq<char> {
    let k = leading_ws(line) as int;
    let t = trim_both(line);
    if t.len() >= 2 && t[0] == '*' && t[1] == ' ' {
        line.take(k) + seq![BULLET] + line.skip(k + 1)
    } else {
        line
    }
}

/// Applies `star_bullet_line` to every line of `s`.
pub open spec fn star_bullets(s: Seq<char>) -> Seq<char>
    decreases s.len(),
{
    let p = find_char(s, '\n') as int;
    if p >= s.len() {
        star_bullet_line(s)
    } else {
        let line = chop_cr(s.take(p));
        if p + 1 == s.len() {
            star_bullet_line(line)
        } else {
            star_bullet_line(line) + seq!['\n'] + star_bullets(s.skip(p + 1))
        }
    }
}

/// Appends `star_bullet_line(v[from..to])` to `out`.
fn star_bullet_push(out: &mut Vec<char>, v: &Vec<char>, from: usize, to: usize)
    requires
        from <= to <= v@.len(),
    ensures
        final(out)@ == old(out)@ + star_bullet_line(v@.subrange(from as int, to as int)),
{
    let ghost line = v@.subrange(from as int, to as int);
    let bounds = trim_bounds(v, from, to);
    let b = bounds.0;
    let t = bounds.1;
    proof {
        assert(v@.subrange(b as int, t as int) == trim_both(line));
        assert(b - from == leading_ws(line));
    }
    if t - b >= 2 && v[b] == '*' && v[b + 1] == ' ' {
        proof {
            let tr = trim_both(line);
            assert(tr[0] == v@[b as int]);
            assert(tr[1] == v@[b as int + 1]);
        }
        push_range(out, v, from, b);
        out.push(BULLET);
        push_range(out, v, b + 1, to);
        proof {
            assert(line.take(b as int - from as int) =~= v@.subrange(from as int, b as int));
            assert(line.skip(b as int - from as int + 1) =~= v@.subrange(
                b as int + 1,
                to as int,
            ));
            assert(out@ =~= old(out)@ + star_bullet_line(line));
        }
    } else {
        proof {
            let tr = trim_both(line);
            if tr.len() >= 2 {
                assert(tr[0] == v@[b as int]);
                assert(tr[1] == v@[b as int + 1]);
            }
            assert(star_bullet_line(line) == line);
        }
        push_range(out, v, from, to);
    }
}

/// Rewrites the line-leading star markers of the whole text.
pub fn star_bullets_chars(v: &Vec<char>) -> (r: Vec<char>)
    ensures
        r@ == star_bullets(v@),
{
    let mut out: Vec<char> = Vec::new();
    let mut i: usize = 0;
    proof {
        assert(v@.skip(0) =~= v@);
        assert(Seq::<char>::empty() + star_bullets(v@) =~= star_bullets(v@));
    }
    loop
        invariant
            i <= v@.len(),
            star_bullets(v@) == out@ + star_bullets(v@.skip(i as int)),
        decreases v@.len() - i,
    {
        let ghost rest = v@.skip(i as int);
        let ghost prefix = out@;
        let ends = line_ends(v, i);
        let e = ends.0;
        let le = ends.1;
        let ghost p = find_char(rest, '\n');
        let ghost line = v@.subrange(i as int, le as int);
        proof {
            assert(p == e - i);
            if e == v@.len() {
                assert(rest =~= line);
            } else {
                assert(chop_cr(rest.take(p as int)) == line);
            }
        }
        star_bullet_push(&mut out, v, i, le);
        if e == v.len() {
            proof {
                assert(p >= rest.len());
                assert(star_bullets(rest) == star_bullet_line(rest));
            }
            return out;
        }
        if e + 1 == v.len() {
            proof {
                assert(p + 1 == rest.len());
                assert(star_bullets(rest) == star_bullet_line(line));
            }
            return out;
        }
        out.push('\n');
        proof {
            assert(rest.skip(p as int + 1) =~= v@.skip(e as int + 1));
            assert(star_bullets(rest) == star_bullet_line(line) + seq!['\n'] + star_bullets(
                v@.skip(e as int + 1),
            ));
            assert(out@ =~= prefix + star_bullet_line(line) + seq!['\n']);
            assert(prefix + (star_bullet_line(line) + seq!['\n'] + star_bullets(
                v@.skip(e as int + 1),
            )) =~= out@ + star_bullets(v@.skip(e as int + 1)));
        }
        i = e + 1;
    }
}

// ---------------------------------------------------------------------------
// Ordered-list renumbering
// ---------------------------------------------------------------------------

/// The decimal digit character for `d < 10`.
pub open spec fn digit_char(d: nat) -> char {
    if d == 0 {
        '0'
    } else if d == 1 {
        '1'
    } else if d == 2 {
        '2'
    } else if d == 3 {
        '3'
    } else if d == 4 {
        '4'
    } else if d == 5 {
        '5'
    } else if d == 6 {
        '6'
    } else if d == 7 {
        '7'
    } else if d == 8 {
        '8'
    } else {
        '9'
    }
}

/// The decimal digit characters of `n`, most significant first.
pub open spec fn dec_rep(n: nat) -> Seq<char>
    decreases n,
{
    if n < 10 {
        seq![digit_char(n)]
    } else {
        dec_rep(n / 10) + seq![digit_char(n % 10)]
    }
}

/// True for the digits `'1'` through `'9'`.
pub open spec fn is_digit19(c: char) -> bool {
    c == '1' || c == '2' || c == '3' || c == '4' || c == '5' || c == '6' || c == '7' || c == '8'
        || c == '9'
}

/// True iff the trimmed line starts with a single-digit ordered-list
/// prefix: a digit `1`..`9`, a dot, and a space.  Numbers of two or more
/// digits are never recognized.
pub open spec fn is_item_line(line: Seq<char>) -> bool {
    let t = trim_both(line);
    t.len() >= 3 && is_digit19(t[0]) && t[1] == '.' && t[2] == ' '
}

/// An ordered-list line renumbered to `counter`: the counter's decimal
/// digits, a dot, a space, and the trimmed line's content after its
/// original three-character prefix.
pub open spec fn renum_line(line: Seq<char>, counter: nat) -> Seq<char> {
    dec_rep(counter) + seq!['.', ' '] + trim_both(line).skip(3)
}

/// Renumbers the ordered-list lines of `s`, the next list item receiving
/// the number `counter`.  A non-item line resets the counter to 1, so each
/// maximal run of consecutive item lines is numbered 1, 2, 3, ... on its
/// own.
pub open spec fn renumber_from(s: Seq<char>, counter: nat) -> Seq<char>
    decreases s.len(),
{
    let p = find_char(s, '\n') as int;
    if p >= s.len() {
        if is_item_line(s) {
            renum_line(s, counter)
        } else {
            s
        }
    } else {
        let line = chop_cr(s.take(p));
        let head = if is_item_line(line) {
            renum_line(line, counter)
        } else {
            line
        };
        if p + 1 == s.len() {
            head
        } else if is_item_line(line) {
            head + seq!['\n'] + renumber_from(s.skip(p + 1), counter + 1)
        } else {
            head + seq!['\n'] + renumber_from(s.skip(p + 1), 1)
        }
    }
}

fn digit_char_exec(d: usize) -> (c: char)
    requires
        d < 10,
    ensures
        c == digit_char(d as nat),
{
    if d == 0 {
        '0'
    } else if d == 1 {
        '1'
    } else if d == 2 {
        '2'
    } else if d == 3 {
        '3'
    } else if d == 4 {
        '4'
    } else if d == 5 {
        '5'
    } else if d == 6 {
        '6'
    } else if d == 7 {
        '7'
    } else if d == 8 {
        '8'
    } else {
        '9'
    }
}

/// The decimal digits of `n` as characters.
fn dec_chars(n: usize) -> (r: Vec<char>)
    ensures
        r@ == dec_rep(n as nat),
    decreases n,
{
    if n < 10 {
        let mut r: Vec<char> = Vec::new();
        r.push(digit_char_exec(n));
        proof {
            assert(r@ =~= seq![digit_char(n as nat)]);
        }
        r
    } else {
        let mut r = dec_chars(n / 10);
        r.push(digit_char_exec(n % 10));
        proof {
            assert((n / 10) as nat == (n as nat) / 10);
            assert((n % 10) as nat == (n as nat) % 10);
            assert(r@ =~= dec_rep((n as nat) / 10) + seq![digit_char((n as nat) % 10)]);
        }
        r
    }
}

fn is_digit19_exec(c: char) -> (b: bool)
    ensures
        b == is_digit19(c),
{
    c == '1' || c == '2' || c == '3' || c == '4' || c == '5' || c == '6' || c == '7' || c == '8'
        || c == '9'
}

/// Renumbers every run of consecutive ordered-list lines starting at 1.
pub fn renumber_chars(v: &Vec<char>) -> (r: Vec<char>)
    ensures
        r@ == renumber_from(v@, 1),
{
    let mut out: Vec<char> = Vec::new();
    let mut i: usize = 0;
    let mut counter: usize = 1;
    proof {
        assert(v@.skip(0) =~= v@);
        assert(Seq::<char>::empty() + renumber_from(v@, 1) =~= renumber_from(v@, 1));
    }
    loop
        invariant
            i <= v@.len(),
            1 <= counter,
            counter <= i + 1,
            renumber_from(v@, 1) == out@ + renumber_from(v@.skip(i as int), counter as nat),
        decreases v@.len() - i,
    {
        let ghost rest = v@.skip(i as int);
        let ghost prefix = out@;
        let ends = line_ends(v, i);
        let e = ends.0;
        let le = ends.1;
        let ghost p = find_char(rest, '\n');
        let ghost line = v@.subrange(i as int, le as int);
        proof {
            assert(p == e - i);
            if e == v@.len() {
                assert(rest =~= line);
            } else {
                assert(chop_cr(rest.take(p as int)) == line);
            }
        }
        let bounds = trim_bounds(v, i, le);
        let b = bounds.0;
        let t = bounds.1;
        proof {
            assert(v@.subrange(b as int, t as int) == trim_both(line));
        }
        let item = t - b >= 3 && is_digit19_exec(v[b]) && v[b + 1] == '.' && v[b + 2] == ' ';
        proof {
            let tr = trim_both(line);
            if tr.len() >= 3 {
                assert(tr[0] == v@[b as int]);
                assert(tr[1] == v@[b as int + 1]);
                assert(tr[2] == v@[b as int + 2]);
            }
            assert(item == is_item_line(line));
        }
        if item {
            let d = dec_chars(counter);
            push_range(&mut out, &d, 0, d.len());
            out.push('.');
            out.push(' ');
            push_range(&mut out, v, b + 3, t);
            proof {
                assert(d@.subrange(0, d@.len() as int) =~= d@);
                assert(trim_both(line).skip(3) =~= v@.subrange(b as int + 3, t as int));
                assert(out@ =~= prefix + renum_line(line, counter as nat));
            }
        } else {
            push_range(&mut out, v, i, le);
            proof {
                assert(out@ =~= prefix + line);
            }
        }
        if e == v.len() {
            proof {
                assert(p >= rest.len());
                assert(renumber_from(rest, counter as nat) == if is_item_line(rest) {
                    renum_line(rest, counter as nat)
                } else {
                    rest
                });
            }
            return out;
        }
        if e + 1 == v.len() {
            proof {
                assert(p + 1 == rest.len());
                assert(renumber_from(rest, counter as nat) == if is_item_line(line) {
                    renum_line(line, counter as nat)
                } else {
                    line
                });
            }
            return out;
        }
        out.push('\n');
        proof {
            assert(rest.skip(p as int + 1) =~= v@.skip(e as int + 1));
        }
        if item {
            proof {
                assert(v.len() == v@.len());
                assert(line.len() >= trim_both(line).len());
                assert(le as int - i as int >= 3);
                assert(renumber_from(rest, counter as nat) == renum_line(line, counter as nat)
                    + seq!['\n'] + renumber_from(v@.skip(e as int + 1), counter as nat + 1));
                assert(prefix + (renum_line(line, counter as nat) + seq!['\n'] + renumber_from(
                    v@.skip(e as int + 1),
                    counter as nat + 1,
                )) =~= out@ + renumber_from(v@.skip(e as int + 1), counter as nat + 1));
            }
            counter = counter + 1;
        } else {
            proof {
                assert(renumber_from(rest, counter as nat) == line + seq!['\n'] + renumber_from(
                    v@.skip(e as int + 1),
                    1,
                ));
                assert(prefix + (line + seq!['\n'] + renumber_from(v@.skip(e as int + 1), 1))
                    =~= out@ + renumber_from(v@.skip(e as int + 1), 1));
            }
            counter = 1;
        }
        i = e + 1;
    }
}

// ---------------------------------------------------------------------------
// Styling strip
// ---------------------------------------------------------------------------

/// Removes every terminal styling sequence from one line: a sequence starts
/// at an escape character and ends at the next `m`; everything between is
/// removed.  When no `m` follows the escape, the remainder of the line is
/// kept unmodified.
pub open spec fn strip_line(line: Seq<char>) -> Seq<char>
    decreases line.len(),
{
    if line.len() == 0 {
        Seq::<char>::empty()
    } else if line[0] != ESC {
        seq![line[0]] + strip_line(line.skip(1))
    } else {
        let q = find_char(line, 'm') as int;
        if q >= line.len() {
            line
        } else {
            strip_line(line.skip(q + 1))
        }
    }
}

/// Removes every terminal styling sequence from `s`, walking it line by
/// line as `str::lines` does and rejoining with newlines.
pub open spec fn strip_spec(s: Seq<char>) -> Seq<char>
    decreases s.len(),
{
    let p = find_char(s, '\n') as int;
    if p >= s.len() {
        strip_line(s)
    } else {
        let line = chop_cr(s.take(p));
        if p + 1 == s.len() {
            strip_line(line)
        } else {
            strip_line(line) + seq!['\n'] + strip_spec(s.skip(p + 1))
        }
    }
}

/// Appends `strip_line(v[from..to])` to `out`.  The range must contain no
/// newline character.
fn strip_line_push(out: &mut Vec<char>, v: &Vec<char>, from: usize, to: usize)
    requires
        from <= to <= v@.len(),
        forall|j: int| from <= j < to ==> v@[j] != '\n',
    ensures
        final(out)@ == old(out)@ + strip_line(v@.subrange(from as int, to as int)),
{
    let ghost lfull = v@.subrange(from as int, to as int);
    let mut x = from;
    while x < to
        invariant
            from <= x <= to <= v@.len(),
            forall|j: int| from <= j < to ==> v@[j] != '\n',
            lfull == v@.subrange(from as int, to as int),
            old(out)@ + strip_line(lfull) == out@ + strip_line(
                v@.subrange(x as int, to as int),
            ),
        decreases to - x,
    {
        let ghost sub = v@.subrange(x as int, to as int);
        let ghost prefix = out@;
        if v[x] != ESC {
            out.push(v[x]);
            proof {
                assert(sub[0] == v@[x as int]);
                assert(sub.skip(1) =~= v@.subrange(x as int + 1, to as int));
                assert(strip_line(sub) == seq![v@[x as int]] + strip_line(
                    v@.subrange(x as int + 1, to as int),
                ));
                assert(prefix + (seq![v@[x as int]] + strip_line(
                    v@.subrange(x as int + 1, to as int),
                )) =~= out@ + strip_line(v@.subrange(x as int + 1, to as int)));
            }
            x = x + 1;
        } else {
            let mut q = x;
            while q < to && v[q] != 'm'
                invariant
                    x <= q <= to <= v@.len(),
                    forall|j: int| x <= j < q ==> v@[j] != 'm',
                decreases to - q,
            {
                q = q + 1;
            }
            proof {
                assert(sub[0] == v@[x as int]);
            }
            if q < to {
                proof {
                    assert forall|j: int| 0 <= j < q - x implies sub[j] != 'm' by {
                        assert(sub[j] == v@[j + x]);
                    }
                    assert(sub[q - x] == v@[q as int]);
                    lemma_find_char_is(sub, 'm', q as int - x as int);
                    assert(sub.skip(q - x + 1) =~= v@.subrange(q as int + 1, to as int));
                    assert(strip_line(sub) == strip_line(v@.subrange(q as int + 1, to as int)));
                }
                x = q + 1;
            } else {
                proof {
                    assert forall|j: int| 0 <= j < sub.len() implies sub[j] != 'm' by {
                        assert(sub[j] == v@[j + x]);
                    }
                    lemma_find_char_is(sub, 'm', sub.len() as int);
                    assert(strip_line(sub) == sub);
                    assert(v@.subrange(to as int, to as int) =~= Seq::<char>::empty());
                    assert(strip_line(Seq::<char>::empty()) == Seq::<char>::empty());
                }
                push_range(out, v, x, to);
                proof {
                    assert(prefix + sub =~= out@ + strip_line(
                        v@.subrange(to as int, to as int),
                    ));
                }
                x = to;
            }
        }
    }
    proof {
        assert(v@.subrange(x as int, to as int) =~= Seq::<char>::empty());
        assert(strip_line(Seq::<char>::empty()) == Seq::<char>::empty());
        assert(out@ + Seq::<char>::empty() =~= out@);
        assert(out@ =~= old(out)@ + strip_line(lfull));
    }
}

/// Removes every terminal styling sequence from `v`.
pub fn strip_chars(v: &Vec<char>) -> (r: Vec<char>)
    ensures
        r@ == strip_spec(v@),
{
    let mut out: Vec<char> = Vec::new();
    let mut i: usize = 0;
    proof {
        assert(v@.skip(0) =~= v@);
        assert(Seq::<char>::empty() + strip_spec(v@) =~= strip_spec(v@));
    }
    loop
        invariant
            i <= v@.len(),
            strip_spec(v@) == out@ + strip_spec(v@.skip(i as int)),
        decreases v@.len() - i,
    {
        let ghost rest = v@.skip(i as int);
        let ghost prefix = out@;
        let ends = line_ends(v, i);
        let e = ends.0;
        let le = ends.1;
        let ghost p = find_char(rest, '\n');
        let ghost line = v@.subrange(i as int, le as int);
        proof {
            assert(p == e - i);
            if e == v@.len() {
                assert(rest =~= line);
            } else {
                assert(chop_cr(rest.take(p as int)) == line);
            }
        }
        strip_line_push(&mut out, v, i, le);
        if e == v.len() {
            proof {
                assert(p >= rest.len());
                assert(strip_spec(rest) == strip_line(rest));
            }
            return out;
        }
        if e + 1 == v.len() {
            proof {
                assert(p + 1 == rest.len());
                assert(strip_spec(rest) == strip_line(line));
            }
            return out;
        }
        out.push('\n');
        proof {
            assert(rest.skip(p as int + 1) =~= v@.skip(e as int + 1));
            assert(strip_spec(rest) == strip_line(line) + seq!['\n'] + strip_spec(
                v@.skip(e as int + 1),
            ));
            assert(out@ =~= prefix + strip_line(line) + seq!['\n']);
            assert(prefix + (strip_line(line) + seq!['\n'] + strip_spec(v@.skip(e as int + 1)))
                =~= out@ + strip_spec(v@.skip(e as int + 1)));
        }
        i = e + 1;
    }
}

} // verus!
