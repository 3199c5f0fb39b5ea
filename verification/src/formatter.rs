//! The content transformer: composes the styled header block (title, tags,
//! separator) with the transformed body, and offers the styling strip that
//! turns the styled output into its clean file variant.
//!
//! Styling is embedded as literal terminal escape sequences, so the whole
//! transformation stays a pure function of its text inputs: the title is
//! wrapped in bold bright-cyan codes, the joined tags in bright-blue, the
//! separator line in bright-white.

use vstd::prelude::*;
use vstd::string::*;
use crate::markdown::tag_views;
use crate::text::{ESC, replace_all, replace_all_chars, str_chars, chars_string, push_range};
use crate::transform::{
    BULLET, star_bullets, star_bullets_chars, renumber_from, renumber_chars, strip_spec,
    strip_chars,
};

verus! {

/// The glyph replacing the `"# "` heading marker.
pub const MEMO: char = '\u{1f4dd}';

/// The glyph replacing the `"## "` heading marker.
pub const PIN: char = '\u{1f4cc}';

/// The glyph replacing the `"### "` heading marker.
pub const DIAMOND: char = '\u{1f538}';

/// The glyph drawn fifty times as the header separator line.
pub const SEP: char = '\u{2500}';

/// The label glyph opening the tags line, with its presentation selector.
pub const LABEL: char = '\u{1f3f7}';

pub const LABEL_SELECTOR: char = '\u{fe0f}';

// ---------------------------------------------------------------------------
// Header specification
// ---------------------------------------------------------------------------

/// The opening of a styling sequence: escape, bracket, the code, `m`.
pub open spec fn esc_open(code: Seq<char>) -> Seq<char> {
    seq![ESC, '['] + code + seq!['m']
}

/// The sequence that resets styling.
pub open spec fn esc_close() -> Seq<char> {
    seq![ESC, '[', '0', 'm']
}

/// `text` wrapped in the styling sequence for `code`.
pub open spec fn styled(code: Seq<char>, text: Seq<char>) -> Seq<char> {
    esc_open(code) + text + esc_close()
}

/// Bold bright-cyan, the title's style.
pub open spec fn title_code() -> Seq<char> {
    seq!['1', ';', '9', '6']
}

/// Bright-blue, the tags' style.
pub open spec fn tags_code() -> Seq<char> {
    seq!['9', '4']
}

/// Bright-white, the separator's style.
pub open spec fn sep_code() -> Seq<char> {
    seq!['9', '7']
}

/// The label text opening the tags line.
pub open spec fn tags_label() -> Seq<char> {
    seq![LABEL, LABEL_SELECTOR, ' ', ' ', 'T', 'a', 'g', 's', ':', ' ']
}

/// A blank line: two newline characters ending a header section.
pub open spec fn blank() -> Seq<char> {
    seq!['\n', '\n']
}

/// The separator: fifty separator glyphs.
pub open spec fn sep_line() -> Seq<char> {
    Seq::new(50, |i: int| SEP)
}

/// The items joined with `sep` between consecutive items.
pub open spec fn join_with(items: Seq<Seq<char>>, sep: Seq<char>) -> Seq<char>
    decreases items.len(),
{
    if items.len() == 0 {
        Seq::<char>::empty()
    } else if items.len() == 1 {
        items[0]
    } else {
        items[0] + sep + join_with(items.skip(1), sep)
    }
}

pub proof fn lemma_join_with_push(items: Seq<Seq<char>>, sep: Seq<char>, x: Seq<char>)
    requires
        items.len() >= 1,
    ensures
        join_with(items.push(x), sep) == join_with(items, sep) + sep + x,
    decreases items.len(),
{
    if items.len() == 1 {
        assert(items.push(x)[0] == items[0]);
        assert(items.push(x).skip(1) =~= seq![x]);
        assert(join_with(seq![x], sep) == x);
    } else {
        assert(items.push(x)[0] == items[0]);
        assert(items.push(x).skip(1) =~= items.skip(1).push(x));
        lemma_join_with_push(items.skip(1), sep, x);
        assert(items[0] + sep + (join_with(items.skip(1), sep) + sep + x) =~= (items[0] + sep
            + join_with(items.skip(1), sep)) + sep + x);
    }
}

/// The tags section of the header: absent for an empty tag sequence, else
/// the label, the styled comma-joined tags, and a blank line.
pub open spec fn tags_block(tags: Seq<Seq<char>>) -> Seq<char> {
    if tags.len() == 0 {
        Seq::<char>::empty()
    } else {
        tags_label() + styled(tags_code(), join_with(tags, seq![',', ' '])) + blank()
    }
}

/// The styled header block: title, tags section, separator, each section
/// ending with a blank line.
pub open spec fn header_spec(title: Seq<char>, tags: Seq<Seq<char>>) -> Seq<char> {
    styled(title_code(), title) + blank() + tags_block(tags) + styled(sep_code(), sep_line())
        + blank()
}

// ---------------------------------------------------------------------------
// Body conversion specification
// ---------------------------------------------------------------------------

/// The marker rewriting of the body, in its fixed order: heading markers
/// from the longest to the shortest (so a deeper heading is claimed by its
/// own glyph before a shorter marker could match inside it), then the
/// unconditional `"- "` rewrite, then line-leading stars, then the
/// renumbering of ordered lists.
pub open spec fn convert_spec(s: Seq<char>) -> Seq<char> {
    let a = replace_all(s, seq!['#', '#', '#', ' '], seq![DIAMOND, ' ']);
    let b = replace_all(a, seq!['#', '#', ' '], seq![PIN, ' ']);
    let c = replace_all(b, seq!['#', ' '], seq![MEMO, ' ']);
    let d = replace_all(c, seq!['-', ' '], seq![BULLET, ' ']);
    renumber_from(star_bullets(d), 1)
}

/// The complete styled output: header block, then converted body.
pub open spec fn format_spec(content: Seq<char>, title: Seq<char>, tags: Seq<Seq<char>>)
    -> Seq<char> {
    header_spec(title, tags) + convert_spec(content)
}

// ---------------------------------------------------------------------------
// Executable header pieces
// ---------------------------------------------------------------------------

fn push_esc_close(out: &mut Vec<char>)
    ensures
        final(out)@ == old(out)@ + esc_close(),
{
    out.push(ESC);
    out.push('[');
    out.push('0');
    out.push('m');
    proof {
        assert(out@ =~= old(out)@ + esc_close());
    }
}

fn push_title_open(out: &mut Vec<char>)
    ensures
        final(out)@ == old(out)@ + esc_open(title_code()),
{
    out.push(ESC);
    out.push('[');
    out.push('1');
    out.push(';');
    out.push('9');
    out.push('6');
    out.push('m');
    proof {
        assert(out@ =~= old(out)@ + esc_open(title_code()));
    }
}

fn push_tags_open(out: &mut Vec<char>)
    ensures
        final(out)@ == old(out)@ + esc_open(tags_code()),
{
    out.push(ESC);
    out.push('[');
    out.push('9');
    out.push('4');
    out.push('m');
    proof {
        assert(out@ =~= old(out)@ + esc_open(tags_code()));
    }
}

fn push_sep_open(out: &mut Vec<char>)
    ensures
        final(out)@ == old(out)@ + esc_open(sep_code()),
{
    out.push(ESC);
    out.push('[');
    out.push('9');
    out.push('7');
    out.push('m');
    proof {
        assert(out@ =~= old(out)@ + esc_open(sep_code()));
    }
}

fn push_blank(out: &mut Vec<char>)
    ensures
        final(out)@ == old(out)@ + blank(),
{
    out.push('\n');
    out.push('\n');
    proof {
        assert(out@ =~= old(out)@ + blank());
    }
}

fn push_tags_label(out: &mut Vec<char>)
    ensures
        final(out)@ == old(out)@ + tags_label(),
{
    out.push(LABEL);
    out.push(LABEL_SELECTOR);
    out.push(' ');
    out.push(' ');
    out.push('T');
    out.push('a');
    out.push('g');
    out.push('s');
    out.push(':');
    out.push(' ');
    proof {
        assert(out@ =~= old(out)@ + tags_label());
    }
}

fn push_sep_line(out: &mut Vec<char>)
    ensures
        final(out)@ == old(out)@ + sep_line(),
{
    let mut k: usize = 0;
    while k < 50
        invariant
            k <= 50,
            out@ == old(out)@ + Seq::new(k as nat, |i: int| SEP),
        decreases 50 - k,
    {
        out.push(SEP);
        proof {
            assert(Seq::new(k as nat + 1, |i: int| SEP) =~= Seq::new(
                k as nat,
                |i: int| SEP,
            ).push(SEP));
            assert(old(out)@ + Seq::new(k as nat + 1, |i: int| SEP) =~= (old(out)@ + Seq::new(
                k as nat,
                |i: int| SEP,
            )).push(SEP));
        }
        k = k + 1;
    }
}

fn push_joined_tags(out: &mut Vec<char>, tags: &Vec<String>)
    requires
        tags@.len() >= 1,
    ensures
        final(out)@ == old(out)@ + join_with(tag_views(tags@), seq![',', ' ']),
{
    let ghost views = tag_views(tags@);
    let first = str_chars(tags[0].as_str());
    push_range(out, &first, 0, first.len());
    proof {
        assert(first@.subrange(0, first@.len() as int) =~= first@);
        assert(views[0] == tags@[0]@);
        assert(views.take(1) =~= seq![views[0]]);
        assert(join_with(views.take(1), seq![',', ' ']) == views[0]);
    }
    let mut j: usize = 1;
    while j < tags.len()
        invariant
            1 <= j <= tags@.len(),
            views == tag_views(tags@),
            out@ == old(out)@ + join_with(views.take(j as int), seq![',', ' ']),
        decreases tags@.len() - j,
    {
        let ghost before = out@;
        out.push(',');
        out.push(' ');
        let tj = str_chars(tags[j].as_str());
        push_range(out, &tj, 0, tj.len());
        proof {
            assert(tj@.subrange(0, tj@.len() as int) =~= tj@);
            assert(views[j as int] == tags@[j as int]@);
            assert(out@ =~= before + seq![',', ' '] + views[j as int]);
            assert(views.take(j as int).len() >= 1);
            lemma_join_with_push(views.take(j as int), seq![',', ' '], views[j as int]);
            assert(views.take(j as int + 1) =~= views.take(j as int).push(views[j as int]));
            assert(out@ =~= old(out)@ + join_with(views.take(j as int + 1), seq![',', ' ']));
        }
        j = j + 1;
    }
    proof {
        assert(views.take(tags@.len() as int) =~= views);
    }
}

// ---------------------------------------------------------------------------
// The public transformer
// ---------------------------------------------------------------------------

/// The Markdown-to-output content transformer.
pub struct MarkdownFormatter {}

impl MarkdownFormatter {
    /// Produces the styled output for `markdown_content`: the header block
    /// built from `title` and `tags`, followed by the converted body.
    pub fn format_for_medium(markdown_content: &str, title: &str, tags: &Vec<String>)
        -> (r: String)
        ensures
            r@ == format_spec(markdown_content@, title@, tag_views(tags@)),
    {
        let mut out: Vec<char> = Vec::new();
        push_title_open(&mut out);
        let tv = str_chars(title);
        push_range(&mut out, &tv, 0, tv.len());
        push_esc_close(&mut out);
        push_blank(&mut out);
        proof {
            assert(tv@.subrange(0, tv@.len() as int) =~= tv@);
            assert(out@ =~= styled(title_code(), title@) + blank());
        }
        if tags.len() > 0 {
            let ghost before = out@;
            push_tags_label(&mut out);
            push_tags_open(&mut out);
            push_joined_tags(&mut out, tags);
            push_esc_close(&mut out);
            push_blank(&mut out);
            proof {
                assert(out@ =~= before + tags_block(tag_views(tags@)));
            }
        } else {
            proof {
                assert(tag_views(tags@).len() == 0);
                assert(out@ =~= out@ + tags_block(tag_views(tags@)));
            }
        }
        let ghost header_so_far = out@;
        push_sep_open(&mut out);
        push_sep_line(&mut out);
        push_esc_close(&mut out);
        push_blank(&mut out);
        proof {
            assert(out@ =~= header_so_far + (styled(sep_code(), sep_line()) + blank()));
            assert(out@ =~= header_spec(title@, tag_views(tags@)));
        }
        let body = convert_chars(markdown_content);
        push_range(&mut out, &body, 0, body.len());
        proof {
            assert(body@.subrange(0, body@.len() as int) =~= body@);
            assert(out@ =~= format_spec(markdown_content@, title@, tag_views(tags@)));
        }
        chars_string(&out, 0, out.len())
    }

    /// Converts the body markers: heading glyphs, bullet rewrites, and
    /// ordered-list renumbering.
    pub fn convert_markdown_to_medium_format(content: &str) -> (r: String)
        ensures
            r@ == convert_spec(content@),
    {
        let v = convert_chars(content);
        chars_string(&v, 0, v.len())
    }

    /// Removes the terminal styling sequences, producing the clean variant
    /// suitable for file output.
    pub fn strip_ansi_codes(text: &str) -> (r: String)
        ensures
            r@ == strip_spec(text@),
    {
        let v = str_chars(text);
        let s = strip_chars(&v);
        chars_string(&s, 0, s.len())
    }
}

/// The name of the file the clean output is persisted to, beside the
/// invocation's working directory: the input file's stem with a fixed
/// suffix.
pub fn output_file_name(stem: &str) -> (r: String)
    ensures
        r@ == stem@ + "_medium.txt"@,
{
    let mut r = String::from_str(stem);
    r.append("_medium.txt");
    r
}

fn convert_chars(content: &str) -> (r: Vec<char>)
    ensures
        r@ == convert_spec(content@),
{
    let v = str_chars(content);
    let mut pat3: Vec<char> = Vec::new();
    pat3.push('#');
    pat3.push('#');
    pat3.push('#');
    pat3.push(' ');
    let mut rep3: Vec<char> = Vec::new();
    rep3.push(DIAMOND);
    rep3.push(' ');
    proof {
        assert(pat3@ =~= seq!['#', '#', '#', ' ']);
        assert(rep3@ =~= seq![DIAMOND, ' ']);
    }
    let a = replace_all_chars(&v, &pat3, &rep3);
    let mut pat2: Vec<char> = Vec::new();
    pat2.push('#');
    pat2.push('#');
    pat2.push(' ');
    let mut rep2: Vec<char> = Vec::new();
    rep2.push(PIN);
    rep2.push(' ');
    proof {
        assert(pat2@ =~= seq!['#', '#', ' ']);
        assert(rep2@ =~= seq![PIN, ' ']);
    }
    let b = replace_all_chars(&a, &pat2, &rep2);
    let mut pat1: Vec<char> = Vec::new();
    pat1.push('#');
    pat1.push(' ');
    let mut rep1: Vec<char> = Vec::new();
    rep1.push(MEMO);
    rep1.push(' ');
    proof {
        assert(pat1@ =~= seq!['#', ' ']);
        assert(rep1@ =~= seq![MEMO, ' ']);
    }
    let c = replace_all_chars(&b, &pat1, &rep1);
    let mut patd: Vec<char> = Vec::new();
    patd.push('-');
    patd.push(' ');
    let mut repd: Vec<char> = Vec::new();
    repd.push(BULLET);
    repd.push(' ');
    proof {
        assert(patd@ =~= seq!['-', ' ']);
        assert(repd@ =~= seq![BULLET, ' ']);
    }
    let d = replace_all_chars(&c, &patd, &repd);
    let e = star_bullets_chars(&d);
    renumber_chars(&e)
}

} // verus!
