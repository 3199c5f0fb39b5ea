//! Library-wide laws, proved once and for all inputs: stripping the styled
//! output yields the unstyled header followed by the normalized body (so
//! the round trip leaves no escape character), and an empty tag sequence
//! produces a header without a tags line.

use vstd::prelude::*;
use crate::text::{
    ESC, chop_cr, esc_free, nl_free, find_char, replace_all, leading_ws, trim_both, trailing_ws,
    lemma_find_char, lemma_find_char_is, lemma_leading_ws, lemma_trailing_ws,
    lemma_esc_free_concat, lemma_esc_free_subrange, lemma_nl_free_concat,
};
use crate::transform::{
    BULLET, star_bullet_line, star_bullets, digit_char, dec_rep, is_item_line, renum_line,
    renumber_from, strip_line, strip_spec,
};
use crate::formatter::{
    MEMO, PIN, DIAMOND, SEP, LABEL, LABEL_SELECTOR, esc_open, esc_close, styled, title_code,
    tags_code, sep_code, tags_label, blank, sep_line, join_with, tags_block, header_spec,
    convert_spec, format_spec,
};

verus! {

// ---------------------------------------------------------------------------
// How the styling strip acts on one line
// ---------------------------------------------------------------------------

/// A line prefix free of escape characters passes through the strip
/// unchanged.
pub proof fn lemma_strip_line_prepend_clean(a: Seq<char>, b: Seq<char>)
    requires
        esc_free(a),
    ensures
        strip_line(a + b) == a + strip_line(b),
    decreases a.len(),
{
    if a.len() == 0 {
        assert(a + b =~= b);
        assert(a + strip_line(b) =~= strip_line(b));
    } else {
        let s = a + b;
        assert(s[0] == a[0]);
        assert(s.skip(1) =~= a.skip(1) + b);
        assert(a.skip(1) =~= a.subrange(1, a.len() as int));
        lemma_esc_free_subrange(a, 1, a.len() as int);
        lemma_strip_line_prepend_clean(a.skip(1), b);
        assert(strip_line(s) == seq![a[0]] + (a.skip(1) + strip_line(b)));
        assert(seq![a[0]] + (a.skip(1) + strip_line(b)) =~= a + strip_line(b));
    }
}

/// A line free of escape characters is left unchanged by the strip.
pub proof fn lemma_strip_line_esc_free(s: Seq<char>)
    requires
        esc_free(s),
    ensures
        strip_line(s) == s,
{
    lemma_strip_line_prepend_clean(s, Seq::<char>::empty());
    assert(s + Seq::<char>::empty() =~= s);
    assert(strip_line(Seq::<char>::empty()) == Seq::<char>::empty());
    assert(s + strip_line(Seq::<char>::empty()) =~= s);
}

/// A styling opener whose code contains no `m` is removed entirely, up to
/// and including its closing `m`.
pub proof fn lemma_strip_line_esc_block(code: Seq<char>, rest: Seq<char>)
    requires
        forall|i: int| 0 <= i < code.len() ==> code[i] != 'm',
    ensures
        strip_line(esc_open(code) + rest) == strip_line(rest),
{
    let s = esc_open(code) + rest;
    let k = 2 + code.len() as int;
    assert(s[0] == ESC);
    assert(s[1] == '[');
    assert forall|j: int| 0 <= j < k implies s[j] != 'm' by {
        if j >= 2 {
            assert(s[j] == code[j - 2]);
        }
    }
    assert(s[k] == 'm');
    lemma_find_char_is(s, 'm', k);
    assert(s.skip(k + 1) =~= rest);
}

/// Stripping a styled piece of a line yields its bare text: the opener and
/// the reset sequence vanish, the text between them stays.
pub proof fn lemma_strip_line_styled(code: Seq<char>, text: Seq<char>, rest: Seq<char>)
    requires
        forall|i: int| 0 <= i < code.len() ==> code[i] != 'm',
        esc_free(text),
    ensures
        strip_line(styled(code, text) + rest) == text + strip_line(rest),
{
    assert(styled(code, text) + rest =~= esc_open(code) + (text + (esc_close() + rest)));
    lemma_strip_line_esc_block(code, text + (esc_close() + rest));
    lemma_strip_line_prepend_clean(text, esc_close() + rest);
    assert(seq!['0'][0] == '0');
    assert(esc_close() + rest =~= esc_open(seq!['0']) + rest);
    lemma_strip_line_esc_block(seq!['0'], rest);
}

// ---------------------------------------------------------------------------
// How the styling strip walks lines
// ---------------------------------------------------------------------------

/// One walking step of the strip: a newline-free line that does not end in
/// a carriage return, its newline, and a nonempty remainder.
pub proof fn lemma_strip_spec_step(a: Seq<char>, rest: Seq<char>)
    requires
        nl_free(a),
        a.len() > 0 ==> a[a.len() - 1] != '\r',
        rest.len() >= 1,
    ensures
        strip_spec(a + seq!['\n'] + rest) == strip_line(a) + seq!['\n'] + strip_spec(rest),
{
    let s = a + seq!['\n'] + rest;
    let p = a.len() as int;
    assert forall|j: int| 0 <= j < p implies s[j] != '\n' by {
        assert(s[j] == a[j]);
    }
    assert(s[p] == '\n');
    lemma_find_char_is(s, '\n', p);
    assert(s.take(p) =~= a);
    assert(chop_cr(a) == a);
    assert(s.skip(p + 1) =~= rest);
}

/// The strip of the single-newline text is empty: the one line before the
/// trailing newline is empty, and the trailing newline yields no line.
pub proof fn lemma_strip_spec_lone_nl()
    ensures
        strip_spec(seq!['\n']) == Seq::<char>::empty(),
{
    let s = seq!['\n'];
    assert(s[0] == '\n');
    lemma_find_char_is(s, '\n', 0);
    assert(s.take(0) =~= Seq::<char>::empty());
    assert(chop_cr(Seq::<char>::empty()) == Seq::<char>::empty());
    assert(strip_line(Seq::<char>::empty()) == Seq::<char>::empty());
}

/// The strip of escape-free text stays escape-free: it only normalizes the
/// line endings.
pub proof fn lemma_strip_spec_esc_free(s: Seq<char>)
    requires
        esc_free(s),
    ensures
        esc_free(strip_spec(s)),
    decreases s.len(),
{
    lemma_find_char(s, '\n');
    let p = find_char(s, '\n') as int;
    if p >= s.len() {
        lemma_strip_line_esc_free(s);
    } else {
        let raw = s.take(p);
        assert(raw =~= s.subrange(0, p));
        lemma_esc_free_subrange(s, 0, p);
        if raw.len() > 0 && raw[raw.len() - 1] == '\r' {
            assert(raw.drop_last() =~= raw.subrange(0, raw.len() - 1));
            lemma_esc_free_subrange(raw, 0, raw.len() - 1);
        }
        let line = chop_cr(raw);
        lemma_strip_line_esc_free(line);
        if p + 1 == s.len() {
        } else {
            assert(seq!['\n'][0] == '\n');
            assert(s.skip(p + 1) =~= s.subrange(p + 1, s.len() as int));
            lemma_esc_free_subrange(s, p + 1, s.len() as int);
            lemma_strip_spec_esc_free(s.skip(p + 1));
            lemma_esc_free_concat(line, seq!['\n']);
            lemma_esc_free_concat(line + seq!['\n'], strip_spec(s.skip(p + 1)));
        }
    }
}

// ---------------------------------------------------------------------------
// The body conversion introduces no escape character
// ---------------------------------------------------------------------------

pub proof fn lemma_replace_all_esc_free(s: Seq<char>, pat: Seq<char>, rep: Seq<char>)
    requires
        esc_free(s),
        esc_free(rep),
    ensures
        esc_free(replace_all(s, pat, rep)),
    decreases s.len(),
{
    if pat.len() == 0 || s.len() < pat.len() {
    } else if s.take(pat.len() as int) == pat {
        assert(s.skip(pat.len() as int) =~= s.subrange(pat.len() as int, s.len() as int));
        lemma_esc_free_subrange(s, pat.len() as int, s.len() as int);
        lemma_replace_all_esc_free(s.skip(pat.len() as int), pat, rep);
        lemma_esc_free_concat(rep, replace_all(s.skip(pat.len() as int), pat, rep));
    } else {
        assert(seq![s[0]][0] == s[0]);
        assert(s.skip(1) =~= s.subrange(1, s.len() as int));
        lemma_esc_free_subrange(s, 1, s.len() as int);
        lemma_replace_all_esc_free(s.skip(1), pat, rep);
        lemma_esc_free_concat(seq![s[0]], replace_all(s.skip(1), pat, rep));
    }
}

pub proof fn lemma_star_bullet_line_esc_free(line: Seq<char>)
    requires
        esc_free(line),
    ensures
        esc_free(star_bullet_line(line)),
{
    lemma_leading_ws(line);
    let k = leading_ws(line) as int;
    let t = trim_both(line);
    if t.len() >= 2 && t[0] == '*' && t[1] == ' ' {
        lemma_trailing_ws(line.skip(k));
        assert(line.len() - k >= 2);
        assert(line.take(k) =~= line.subrange(0, k));
        lemma_esc_free_subrange(line, 0, k);
        assert(seq![BULLET][0] == BULLET);
        assert(line.skip(k + 1) =~= line.subrange(k + 1, line.len() as int));
        lemma_esc_free_subrange(line, k + 1, line.len() as int);
        lemma_esc_free_concat(line.take(k), seq![BULLET]);
        lemma_esc_free_concat(line.take(k) + seq![BULLET], line.skip(k + 1));
    }
}

pub proof fn lemma_star_bullets_esc_free(s: Seq<char>)
    requires
        esc_free(s),
    ensures
        esc_free(star_bullets(s)),
    decreases s.len(),
{
    lemma_find_char(s, '\n');
    let p = find_char(s, '\n') as int;
    if p >= s.len() {
        lemma_star_bullet_line_esc_free(s);
    } else {
        let raw = s.take(p);
        assert(raw =~= s.subrange(0, p));
        lemma_esc_free_subrange(s, 0, p);
        if raw.len() > 0 && raw[raw.len() - 1] == '\r' {
            assert(raw.drop_last() =~= raw.subrange(0, raw.len() - 1));
            lemma_esc_free_subrange(raw, 0, raw.len() - 1);
        }
        let line = chop_cr(raw);
        lemma_star_bullet_line_esc_free(line);
        if p + 1 == s.len() {
        } else {
            assert(seq!['\n'][0] == '\n');
            assert(s.skip(p + 1) =~= s.subrange(p + 1, s.len() as int));
            lemma_esc_free_subrange(s, p + 1, s.len() as int);
            lemma_star_bullets_esc_free(s.skip(p + 1));
            lemma_esc_free_concat(star_bullet_line(line), seq!['\n']);
            lemma_esc_free_concat(
                star_bullet_line(line) + seq!['\n'],
                star_bullets(s.skip(p + 1)),
            );
        }
    }
}

pub proof fn lemma_dec_rep_esc_free(n: nat)
    ensures
        esc_free(dec_rep(n)),
    decreases n,
{
    if n < 10 {
        assert(seq![digit_char(n)][0] == digit_char(n));
        assert(digit_char(n) != ESC);
    } else {
        lemma_dec_rep_esc_free(n / 10);
        assert(seq![digit_char(n % 10)][0] == digit_char(n % 10));
        assert(digit_char(n % 10) != ESC);
        lemma_esc_free_concat(dec_rep(n / 10), seq![digit_char(n % 10)]);
    }
}

pub proof fn lemma_trim_both_esc_free(s: Seq<char>)
    requires
        esc_free(s),
    ensures
        esc_free(trim_both(s)),
{
    lemma_leading_ws(s);
    let a = s.skip(leading_ws(s) as int);
    assert(a =~= s.subrange(leading_ws(s) as int, s.len() as int));
    lemma_esc_free_subrange(s, leading_ws(s) as int, s.len() as int);
    lemma_trailing_ws(a);
    assert(a.take(a.len() - trailing_ws(a)) =~= a.subrange(0, a.len() - trailing_ws(a)));
    lemma_esc_free_subrange(a, 0, a.len() - trailing_ws(a));
}

pub proof fn lemma_renum_line_esc_free(line: Seq<char>, counter: nat)
    requires
        esc_free(line),
        is_item_line(line),
    ensures
        esc_free(renum_line(line, counter)),
{
    lemma_dec_rep_esc_free(counter);
    lemma_trim_both_esc_free(line);
    let t = trim_both(line);
    assert(t.skip(3) =~= t.subrange(3, t.len() as int));
    lemma_esc_free_subrange(t, 3, t.len() as int);
    assert(seq!['.', ' '][0] == '.');
    assert(seq!['.', ' '][1] == ' ');
    assert(esc_free(seq!['.', ' ']));
    lemma_esc_free_concat(dec_rep(counter), seq!['.', ' ']);
    lemma_esc_free_concat(dec_rep(counter) + seq!['.', ' '], t.skip(3));
}

pub proof fn lemma_renumber_esc_free(s: Seq<char>, counter: nat)
    requires
        esc_free(s),
    ensures
        esc_free(renumber_from(s, counter)),
    decreases s.len(),
{
    lemma_find_char(s, '\n');
    let p = find_char(s, '\n') as int;
    if p >= s.len() {
        if is_item_line(s) {
            lemma_renum_line_esc_free(s, counter);
        }
    } else {
        let raw = s.take(p);
        assert(raw =~= s.subrange(0, p));
        lemma_esc_free_subrange(s, 0, p);
        if raw.len() > 0 && raw[raw.len() - 1] == '\r' {
            assert(raw.drop_last() =~= raw.subrange(0, raw.len() - 1));
            lemma_esc_free_subrange(raw, 0, raw.len() - 1);
        }
        let line = chop_cr(raw);
        let head = if is_item_line(line) {
            renum_line(line, counter)
        } else {
            line
        };
        if is_item_line(line) {
            lemma_renum_line_esc_free(line, counter);
        }
        if p + 1 == s.len() {
        } else {
            assert(seq!['\n'][0] == '\n');
            assert(s.skip(p + 1) =~= s.subrange(p + 1, s.len() as int));
            lemma_esc_free_subrange(s, p + 1, s.len() as int);
            lemma_esc_free_concat(head, seq!['\n']);
            if is_item_line(line) {
                lemma_renumber_esc_free(s.skip(p + 1), counter + 1);
                lemma_esc_free_concat(head + seq!['\n'], renumber_from(s.skip(p + 1), counter + 1));
            } else {
                lemma_renumber_esc_free(s.skip(p + 1), 1);
                lemma_esc_free_concat(head + seq!['\n'], renumber_from(s.skip(p + 1), 1));
            }
        }
    }
}

/// The converted body of an escape-free document is escape-free: every
/// glyph and digit the conversion inserts is an ordinary character.
pub proof fn lemma_convert_esc_free(s: Seq<char>)
    requires
        esc_free(s),
    ensures
        esc_free(convert_spec(s)),
{
    assert(seq![DIAMOND, ' '][0] == DIAMOND);
    assert(seq![DIAMOND, ' '][1] == ' ');
    assert(esc_free(seq![DIAMOND, ' ']));
    assert(seq![PIN, ' '][0] == PIN);
    assert(seq![PIN, ' '][1] == ' ');
    assert(esc_free(seq![PIN, ' ']));
    assert(seq![MEMO, ' '][0] == MEMO);
    assert(seq![MEMO, ' '][1] == ' ');
    assert(esc_free(seq![MEMO, ' ']));
    assert(seq![BULLET, ' '][0] == BULLET);
    assert(seq![BULLET, ' '][1] == ' ');
    assert(esc_free(seq![BULLET, ' ']));
    let a = replace_all(s, seq!['#', '#', '#', ' '], seq![DIAMOND, ' ']);
    let b = replace_all(a, seq!['#', '#', ' '], seq![PIN, ' ']);
    let c = replace_all(b, seq!['#', ' '], seq![MEMO, ' ']);
    let d = replace_all(c, seq!['-', ' '], seq![BULLET, ' ']);
    lemma_replace_all_esc_free(s, seq!['#', '#', '#', ' '], seq![DIAMOND, ' ']);
    lemma_replace_all_esc_free(a, seq!['#', '#', ' '], seq![PIN, ' ']);
    lemma_replace_all_esc_free(b, seq!['#', ' '], seq![MEMO, ' ']);
    lemma_replace_all_esc_free(c, seq!['-', ' '], seq![BULLET, ' ']);
    lemma_star_bullets_esc_free(d);
    lemma_renumber_esc_free(star_bullets(d), 1);
}

pub proof fn lemma_join_with_esc_free(items: Seq<Seq<char>>, sep: Seq<char>)
    requires
        forall|i: int| 0 <= i < items.len() ==> esc_free(#[trigger] items[i]),
        esc_free(sep),
    ensures
        esc_free(join_with(items, sep)),
    decreases items.len(),
{
    if items.len() == 0 {
    } else if items.len() == 1 {
        assert(esc_free(items[0]));
    } else {
        assert forall|i: int| 0 <= i < items.skip(1).len() implies esc_free(
            #[trigger] items.skip(1)[i],
        ) by {
            assert(items.skip(1)[i] == items[i + 1]);
        }
        lemma_join_with_esc_free(items.skip(1), sep);
        lemma_esc_free_concat(items[0], sep);
        lemma_esc_free_concat(items[0] + sep, join_with(items.skip(1), sep));
    }
}

pub proof fn lemma_join_with_nl_free(items: Seq<Seq<char>>, sep: Seq<char>)
    requires
        forall|i: int| 0 <= i < items.len() ==> nl_free(#[trigger] items[i]),
        nl_free(sep),
    ensures
        nl_free(join_with(items, sep)),
    decreases items.len(),
{
    if items.len() == 0 {
    } else if items.len() == 1 {
        assert(nl_free(items[0]));
    } else {
        assert forall|i: int| 0 <= i < items.skip(1).len() implies nl_free(
            #[trigger] items.skip(1)[i],
        ) by {
            assert(items.skip(1)[i] == items[i + 1]);
        }
        lemma_join_with_nl_free(items.skip(1), sep);
        lemma_nl_free_concat(items[0], sep);
        lemma_nl_free_concat(items[0] + sep, join_with(items.skip(1), sep));
    }
}

// ---------------------------------------------------------------------------
// The round trip
// ---------------------------------------------------------------------------

/// The unstyled tags section: as the styled one, without the styling.
pub open spec fn plain_tags_block(tags: Seq<Seq<char>>) -> Seq<char> {
    if tags.len() == 0 {
        Seq::<char>::empty()
    } else {
        tags_label() + join_with(tags, seq![',', ' ']) + blank()
    }
}

/// The unstyled header: title, tags section, separator line.
pub open spec fn plain_header(title: Seq<char>, tags: Seq<Seq<char>>) -> Seq<char> {
    title + blank() + plain_tags_block(tags) + sep_line() + blank()
}

proof fn lemma_fixed_pieces()
    ensures
        esc_free(blank()),
        esc_free(tags_label()),
        nl_free(tags_label()),
        esc_free(sep_line()),
        nl_free(sep_line()),
        esc_free(seq![',', ' ']),
        nl_free(seq![',', ' ']),
        esc_free(seq!['\n']),
        forall|i: int| 0 <= i < title_code().len() ==> title_code()[i] != 'm' && title_code()[i]
            != '\n',
        forall|i: int| 0 <= i < tags_code().len() ==> tags_code()[i] != 'm' && tags_code()[i]
            != '\n',
        forall|i: int| 0 <= i < sep_code().len() ==> sep_code()[i] != 'm' && sep_code()[i]
            != '\n',
{
    assert(blank()[0] == '\n');
    assert(blank()[1] == '\n');
    assert(tags_label()[0] == LABEL);
    assert(tags_label()[1] == LABEL_SELECTOR);
    assert(tags_label()[2] == ' ');
    assert(tags_label()[3] == ' ');
    assert(tags_label()[4] == 'T');
    assert(tags_label()[5] == 'a');
    assert(tags_label()[6] == 'g');
    assert(tags_label()[7] == 's');
    assert(tags_label()[8] == ':');
    assert(tags_label()[9] == ' ');
    assert forall|i: int| 0 <= i < sep_line().len() implies sep_line()[i] != ESC && sep_line()[i]
        != '\n' by {
        assert(sep_line()[i] == SEP);
    }
    assert(seq![',', ' '][0] == ',');
    assert(seq![',', ' '][1] == ' ');
    assert(seq!['\n'][0] == '\n');
    assert(title_code()[0] == '1');
    assert(title_code()[1] == ';');
    assert(title_code()[2] == '9');
    assert(title_code()[3] == '6');
    assert(tags_code()[0] == '9');
    assert(tags_code()[1] == '4');
    assert(sep_code()[0] == '9');
    assert(sep_code()[1] == '7');
}

/// A styled piece of newline-free text is a newline-free line ending in
/// the reset sequence's `m`.
proof fn lemma_styled_line_shape(code: Seq<char>, text: Seq<char>)
    requires
        forall|i: int| 0 <= i < code.len() ==> code[i] != '\n',
        nl_free(text),
    ensures
        nl_free(styled(code, text)),
        styled(code, text).len() > 0,
        styled(code, text)[styled(code, text).len() - 1] == 'm',
{
    let s = styled(code, text);
    assert forall|i: int| 0 <= i < s.len() implies s[i] != '\n' by {
        let n_open = 2 + code.len();
        if i < n_open + 1 {
            if i == 0 {
                assert(s[i] == ESC);
            } else if i == 1 {
                assert(s[i] == '[');
            } else if i < n_open {
                assert(s[i] == code[i - 2]);
            } else {
                assert(s[i] == 'm');
            }
        } else if i < n_open + 1 + text.len() {
            assert(s[i] == text[i - n_open - 1]);
        } else {
            assert(s[i] == esc_close()[i - n_open - 1 - text.len()]);
            assert(esc_close()[0] == ESC);
            assert(esc_close()[1] == '[');
            assert(esc_close()[2] == '0');
            assert(esc_close()[3] == 'm');
        }
    }
    assert(s[s.len() - 1] == esc_close()[3]);
    assert(esc_close()[3] == 'm');
}

/// The strip of the separator section and the body: the separator line
/// loses its styling; a nonempty body keeps its blank line and is itself
/// stripped; an empty body leaves a single newline after the separator,
/// since the trailing blank line yields no further line.
proof fn lemma_strip_tail(body: Seq<char>)
    requires
        esc_free(body),
    ensures
        body.len() > 0 ==> strip_spec(styled(sep_code(), sep_line()) + blank() + body)
            == sep_line() + blank() + strip_spec(body),
        body.len() == 0 ==> strip_spec(styled(sep_code(), sep_line()) + blank() + body)
            == sep_line() + seq!['\n'],
{
    lemma_fixed_pieces();
    let a5 = styled(sep_code(), sep_line());
    lemma_styled_line_shape(sep_code(), sep_line());
    let r = seq!['\n'] + body;
    assert(a5 + blank() + body =~= a5 + seq!['\n'] + r);
    lemma_strip_spec_step(a5, r);
    lemma_strip_line_styled(sep_code(), sep_line(), Seq::<char>::empty());
    assert(styled(sep_code(), sep_line()) + Seq::<char>::empty() =~= a5);
    assert(strip_line(Seq::<char>::empty()) == Seq::<char>::empty());
    assert(strip_line(a5) =~= sep_line());
    if body.len() > 0 {
        assert(Seq::<char>::empty() + seq!['\n'] + body =~= r);
        lemma_strip_spec_step(Seq::<char>::empty(), body);
        assert(strip_spec(r) == seq!['\n'] + strip_spec(body));
        assert(sep_line() + seq!['\n'] + (seq!['\n'] + strip_spec(body)) =~= sep_line()
            + blank() + strip_spec(body));
    } else {
        assert(r =~= seq!['\n']);
        lemma_strip_spec_lone_nl();
        assert(sep_line() + seq!['\n'] + Seq::<char>::empty() =~= sep_line() + seq!['\n']);
    }
}

/// The strip of the tags section before a nonempty remainder: absent for
/// an empty tag sequence; otherwise the label and the joined tags lose
/// their styling and keep their blank line.
proof fn lemma_strip_tags_region(tags: Seq<Seq<char>>, rest: Seq<char>)
    requires
        forall|i: int| 0 <= i < tags.len() ==> esc_free(#[trigger] tags[i]) && nl_free(tags[i]),
        rest.len() >= 1,
    ensures
        strip_spec(tags_block(tags) + rest) == plain_tags_block(tags) + strip_spec(rest),
{
    lemma_fixed_pieces();
    if tags.len() == 0 {
        assert(tags_block(tags) + rest =~= rest);
        assert(plain_tags_block(tags) + strip_spec(rest) =~= strip_spec(rest));
    } else {
        let joined = join_with(tags, seq![',', ' ']);
        lemma_join_with_esc_free(tags, seq![',', ' ']);
        lemma_join_with_nl_free(tags, seq![',', ' ']);
        let a3 = tags_label() + styled(tags_code(), joined);
        lemma_styled_line_shape(tags_code(), joined);
        lemma_nl_free_concat(tags_label(), styled(tags_code(), joined));
        assert(a3[a3.len() - 1] == styled(tags_code(), joined)[styled(tags_code(),
            joined,
        ).len() - 1]);
        let r = seq!['\n'] + rest;
        assert(tags_block(tags) + rest =~= a3 + seq!['\n'] + r);
        lemma_strip_spec_step(a3, r);
        lemma_strip_line_prepend_clean(tags_label(), styled(tags_code(), joined));
        lemma_strip_line_styled(tags_code(), joined, Seq::<char>::empty());
        assert(styled(tags_code(), joined) + Seq::<char>::empty() =~= styled(
            tags_code(),
            joined,
        ));
        assert(strip_line(Seq::<char>::empty()) == Seq::<char>::empty());
        assert(strip_line(a3) =~= tags_label() + joined);
        assert(Seq::<char>::empty() + seq!['\n'] + rest =~= r);
        lemma_strip_spec_step(Seq::<char>::empty(), rest);
        assert(strip_spec(r) == seq!['\n'] + strip_spec(rest));
        assert((tags_label() + joined) + seq!['\n'] + (seq!['\n'] + strip_spec(rest))
            =~= plain_tags_block(tags) + strip_spec(rest));
    }
}

/// The round trip: stripping the styled output yields the unstyled header
/// followed by the stripped body, and contains no escape character, for
/// any document, title and tags that contain no escape character, the
/// title and tags also no newline.  On the escape-free body the strip only
/// normalizes line endings, so its residue is the normalized body; when
/// the body is empty, the header's final blank line loses its second
/// newline, the trailing one, with it.
#[verifier::rlimit(100)]
pub proof fn lemma_strip_format_round_trip(
    content: Seq<char>,
    title: Seq<char>,
    tags: Seq<Seq<char>>,
)
    requires
        esc_free(content),
        esc_free(title),
        nl_free(title),
        forall|i: int| 0 <= i < tags.len() ==> esc_free(#[trigger] tags[i]) && nl_free(tags[i]),
    ensures
        esc_free(strip_spec(format_spec(content, title, tags))),
        convert_spec(content).len() > 0 ==> strip_spec(format_spec(content, title, tags))
            == plain_header(title, tags) + strip_spec(convert_spec(content)),
        convert_spec(content).len() == 0 ==> strip_spec(format_spec(content, title, tags))
            == title + blank() + plain_tags_block(tags) + sep_line() + seq!['\n'],
{
    lemma_fixed_pieces();
    let body = convert_spec(content);
    lemma_convert_esc_free(content);
    lemma_strip_spec_esc_free(body);
    let a1 = styled(title_code(), title);
    let a5 = styled(sep_code(), sep_line());
    let tail = a5 + blank() + body;
    let region = tags_block(tags) + tail;
    lemma_styled_line_shape(title_code(), title);
    let r = seq!['\n'] + region;
    assert(format_spec(content, title, tags) =~= a1 + seq!['\n'] + r);
    lemma_strip_spec_step(a1, r);
    lemma_strip_line_styled(title_code(), title, Seq::<char>::empty());
    assert(styled(title_code(), title) + Seq::<char>::empty() =~= a1);
    assert(strip_line(Seq::<char>::empty()) == Seq::<char>::empty());
    assert(strip_line(a1) =~= title);
    assert(Seq::<char>::empty() + seq!['\n'] + region =~= r);
    lemma_strip_spec_step(Seq::<char>::empty(), region);
    assert(strip_spec(r) == seq!['\n'] + strip_spec(region));
    lemma_strip_tags_region(tags, tail);
    lemma_strip_tail(body);
    let ptags = plain_tags_block(tags);
    if tags.len() > 0 {
        lemma_join_with_esc_free(tags, seq![',', ' ']);
        lemma_esc_free_concat(tags_label(), join_with(tags, seq![',', ' ']));
        lemma_esc_free_concat(tags_label() + join_with(tags, seq![',', ' ']), blank());
    }
    if body.len() > 0 {
        assert(strip_spec(format_spec(content, title, tags)) == title + seq!['\n'] + (seq!['\n']
            + (ptags + (sep_line() + blank() + strip_spec(body)))));
        assert(title + seq!['\n'] + (seq!['\n'] + (ptags + (sep_line() + blank() + strip_spec(
            body,
        )))) =~= plain_header(title, tags) + strip_spec(body));
        lemma_esc_free_concat(title, blank());
        lemma_esc_free_concat(title + blank(), ptags);
        lemma_esc_free_concat(title + blank() + ptags, sep_line());
        lemma_esc_free_concat(title + blank() + ptags + sep_line(), blank());
        lemma_esc_free_concat(plain_header(title, tags), strip_spec(body));
    } else {
        assert(strip_spec(body) == Seq::<char>::empty());
        assert(strip_spec(format_spec(content, title, tags)) == title + seq!['\n'] + (seq!['\n']
            + (ptags + (sep_line() + seq!['\n']))));
        assert(title + seq!['\n'] + (seq!['\n'] + (ptags + (sep_line() + seq!['\n']))) =~= title
            + blank() + ptags + sep_line() + seq!['\n']);
        lemma_esc_free_concat(title, blank());
        lemma_esc_free_concat(title + blank(), ptags);
        lemma_esc_free_concat(title + blank() + ptags, sep_line());
        lemma_esc_free_concat(title + blank() + ptags + sep_line(), seq!['\n']);
    }
}

/// The round trip for an empty tag sequence: the clean output is exactly
/// the bare title, the separator line, and the stripped body, with no tags
/// line anywhere.
pub proof fn lemma_strip_format_empty_tags(content: Seq<char>, title: Seq<char>)
    requires
        esc_free(content),
        esc_free(title),
        nl_free(title),
    ensures
        convert_spec(content).len() > 0 ==> strip_spec(
            format_spec(content, title, Seq::<Seq<char>>::empty()),
        ) == title + blank() + sep_line() + blank() + strip_spec(convert_spec(content)),
        convert_spec(content).len() == 0 ==> strip_spec(
            format_spec(content, title, Seq::<Seq<char>>::empty()),
        ) == title + blank() + sep_line() + seq!['\n'],
{
    lemma_strip_format_round_trip(content, title, Seq::<Seq<char>>::empty());
    assert(plain_tags_block(Seq::<Seq<char>>::empty()) == Seq::<char>::empty());
    assert(plain_header(title, Seq::<Seq<char>>::empty()) =~= title + blank() + sep_line()
        + blank());
    assert(title + blank() + Seq::<char>::empty() + sep_line() + seq!['\n'] =~= title + blank()
        + sep_line() + seq!['\n']);
}

// ---------------------------------------------------------------------------
// The empty tag sequence
// ---------------------------------------------------------------------------

/// An empty tag sequence produces a header with no tags line: the header
/// is exactly the styled title block followed by the styled separator
/// block, and its clean form is the bare title and separator.
pub proof fn lemma_header_empty_tags(title: Seq<char>)
    ensures
        header_spec(title, Seq::<Seq<char>>::empty()) == styled(title_code(), title) + blank()
            + styled(sep_code(), sep_line()) + blank(),
        plain_header(title, Seq::<Seq<char>>::empty()) == title + blank() + sep_line() + blank(),
{
    assert(tags_block(Seq::<Seq<char>>::empty()) == Seq::<char>::empty());
    assert(header_spec(title, Seq::<Seq<char>>::empty()) =~= styled(title_code(), title)
        + blank() + styled(sep_code(), sep_line()) + blank());
    assert(plain_tags_block(Seq::<Seq<char>>::empty()) == Seq::<char>::empty());
    assert(plain_header(title, Seq::<Seq<char>>::empty()) =~= title + blank() + sep_line()
        + blank());
}

} // verus!
