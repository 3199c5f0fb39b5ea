//! The title extractor and the tag parser.
//!
//! A document's title is the text of the first line that begins with the
//! literal two-character marker `"# "` (one hash, one space); the marker is
//! matched on the raw prefix, so `"## Subtitle"` does not qualify.  Tags are
//! parsed from a comma-separated string, each piece trimmed of surrounding
//! whitespace.

use vstd::prelude::*;
use crate::text::{
    chop_cr, find_char, str_chars, chars_string, line_ends, scan_to_char, trim_both,
    trim_bounds,
};

verus! {

/// True iff the line carries the top-level heading marker: its first two
/// characters are `#` then space.
pub open spec fn is_title_line(line: Seq<char>) -> bool {
    line.len() >= 2 && line[0] == '#' && line[1] == ' '
}

/// The text after the `"# "` marker of the first matching line of `s`, where
/// lines are the pieces of `s` as `str::lines` yields them (a carriage
/// return directly before the splitting newline goes with it); `None` when
/// no line matches.
pub open spec fn title_of(s: Seq<char>) -> Option<Seq<char>>
    decreases s.len(),
{
    let p = find_char(s, '\n');
    let line = if p >= s.len() {
        s
    } else {
        chop_cr(s.take(p as int))
    };
    if is_title_line(line) {
        Some(line.skip(2))
    } else if p >= s.len() {
        None
    } else {
        title_of(s.skip(p as int + 1))
    }
}

/// Extracts the title from markdown content: the first line that starts
/// with `"# "`, with that marker stripped.
pub fn extract_title(content: &str) -> (r: Option<String>)
    ensures
        (r is Some) == (title_of(content@) is Some),
        r is Some ==> title_of(content@)->0 == r->0@,
{
    let v = str_chars(content);
    let mut i: usize = 0;
    proof {
        assert(v@.skip(0) =~= v@);
    }
    loop
        invariant
            i <= v@.len(),
            v@ == content@,
            title_of(content@) == title_of(v@.skip(i as int)),
        decreases v@.len() - i,
    {
        let ghost rest = v@.skip(i as int);
        let ends = line_ends(&v, i);
        let e = ends.0;
        let le = ends.1;
        let ghost p = find_char(rest, '\n');
        let ghost line = v@.subrange(i as int, le as int);
        proof {
            assert(p == e - i);
            if e == v@.len() {
                assert(rest =~= line);
            } else {
                assert(chop_cr(rest.take(p as int)) == line);
            }
        }
        if le - i >= 2 && v[i] == '#' && v[i + 1] == ' ' {
            proof {
                assert(line[0] == v@[i as int]);
                assert(line[1] == v@[i as int + 1]);
                assert(is_title_line(line));
                assert(line.skip(2) =~= v@.subrange(i as int + 2, le as int));
            }
            return Some(chars_string(&v, i + 2, le));
        }
        proof {
            if line.len() >= 2 {
                assert(line[0] == v@[i as int]);
                assert(line[1] == v@[i as int + 1]);
            }
            assert(!is_title_line(line));
        }
        if e == v.len() {
            proof {
                assert(p >= rest.len());
                assert(title_of(rest) is None);
            }
            return None;
        }
        proof {
            assert(rest.skip(p as int + 1) =~= v@.skip(e as int + 1));
            assert(title_of(rest) == title_of(v@.skip(e as int + 1)));
        }
        i = e + 1;
    }
}

/// The views of a vector of tag strings.
pub open spec fn tag_views(tags: Seq<String>) -> Seq<Seq<char>> {
    tags.map_values(|t: String| t@)
}

/// The pieces of `s` separated by commas, each trimmed of surrounding
/// whitespace.  A string without commas yields exactly one piece, so the
/// empty string yields one empty tag.
pub open spec fn parse_tags_spec(s: Seq<char>) -> Seq<Seq<char>>
    decreases s.len(),
{
    let p = find_char(s, ',');
    if p >= s.len() {
        seq![trim_both(s)]
    } else {
        seq![trim_both(s.take(p as int))] + parse_tags_spec(s.skip(p as int + 1))
    }
}

/// Parses a comma-separated tags string into a vector of trimmed tags.
pub fn parse_tags(tags_str: &str) -> (r: Vec<String>)
    ensures
        tag_views(r@) == parse_tags_spec(tags_str@),
{
    let v = str_chars(tags_str);
    let mut r: Vec<String> = Vec::new();
    let mut i: usize = 0;
    proof {
        assert(v@.skip(0) =~= v@);
        assert(tag_views(r@) =~= Seq::<Seq<char>>::empty());
        assert(Seq::<Seq<char>>::empty() + parse_tags_spec(v@) =~= parse_tags_spec(v@));
    }
    loop
        invariant
            i <= v@.len(),
            v@ == tags_str@,
            parse_tags_spec(v@) == tag_views(r@) + parse_tags_spec(v@.skip(i as int)),
        decreases v@.len() - i,
    {
        let ghost rest = v@.skip(i as int);
        let ghost prefix = tag_views(r@);
        let e = scan_to_char(&v, i, ',');
        let ghost p = find_char(rest, ',');
        proof {
            assert(p == e - i);
        }
        let bounds = trim_bounds(&v, i, e);
        let piece = chars_string(&v, bounds.0, bounds.1);
        proof {
            assert(piece@ == trim_both(v@.subrange(i as int, e as int)));
        }
        r.push(piece);
        proof {
            assert(tag_views(r@) =~= prefix + seq![piece@]);
        }
        if e == v.len() {
            proof {
                assert(p >= rest.len());
                assert(rest =~= v@.subrange(i as int, e as int));
                assert(parse_tags_spec(rest) == seq![trim_both(rest)]);
                assert(prefix + seq![piece@] =~= parse_tags_spec(v@));
            }
            return r;
        }
        proof {
            assert(rest.take(p as int) =~= v@.subrange(i as int, e as int));
            assert(rest.skip(p as int + 1) =~= v@.skip(e as int + 1));
            assert(parse_tags_spec(rest) == seq![piece@] + parse_tags_spec(
                v@.skip(e as int + 1),
            ));
            assert(prefix + (seq![piece@] + parse_tags_spec(v@.skip(e as int + 1)))
                =~= (prefix + seq![piece@]) + parse_tags_spec(v@.skip(e as int + 1)));
        }
        i = e + 1;
    }
}

} // verus!
