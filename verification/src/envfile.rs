//! The env-file edit engine: a line-preserving read and upsert over dotenv
//! content.
//!
//! A binding line is `[leading-ws][export ]KEY=VALUE`, with the key
//! right-trimmed and the value taken verbatim to the end of the line.
//! Lines that are blank or start with `#` after left-trimming are kept but
//! ignored. On read the last binding of a variable wins; on upsert every
//! binding of the variable is rewritten in place, keeping its leading
//! whitespace and `export` prefix, and a new binding is appended when none
//! existed. The functions here work on file content handed in as a string;
//! reading and writing the file itself is the caller's concern.

use vstd::prelude::*;

use crate::chars::{
    eq_str,
    find_char,
    is_ascii_ws,
    is_ws_char,
    leading_ws_len,
    lemma_find_char,
    lemma_leading_ws_len,
    lemma_leading_ws_len_is,
    lemma_trim_end_ws_is,
    trim_end_ws,
};
use vstd::string::StrSliceExecFns;
use vstd::string::StringExecFns;

verus! {

/// A line parsed as a binding: its leading whitespace, whether it carried
/// the `export ` prefix, its key (right-trimmed), and its verbatim value.
pub struct ParsedLine {
    pub leading_ws: String,
    pub export_prefix: bool,
    pub key: String,
    pub value: String,
}

/// The mathematical picture of a parsed binding line.
pub ghost struct LineParts {
    pub leading_ws: Seq<char>,
    pub export_prefix: bool,
    pub key: Seq<char>,
    pub value: Seq<char>,
}

impl View for ParsedLine {
    type V = LineParts;

    open spec fn view(&self) -> LineParts {
        LineParts {
            leading_ws: self.leading_ws@,
            export_prefix: self.export_prefix,
            key: self.key@,
            value: self.value@,
        }
    }
}

/// The seven characters of the `export ` prefix.
pub open spec fn export_seq() -> Seq<char> {
    seq!['e', 'x', 'p', 'o', 'r', 't', ' ']
}

/// How one physical line parses as a binding: trim leading ASCII
/// whitespace; reject blank and `#`-prefixed lines; consume an optional
/// `export ` prefix; split at the first `=`; right-trim the key, which
/// must be non-empty; take the value verbatim.
pub open spec fn parse_line_spec(line: Seq<char>) -> Option<LineParts> {
    let w = leading_ws_len(line);
    let trimmed = line.skip(w);
    if trimmed.len() == 0 || trimmed[0] == '#' {
        None
    } else {
        let has_export = trimmed.len() >= 7 && trimmed.take(7) == export_seq();
        let rest = if has_export {
            trimmed.skip(7)
        } else {
            trimmed
        };
        match find_char(rest, '=') {
            None => None,
            Some(eq) => {
                let key = trim_end_ws(rest.take(eq));
                if key.len() == 0 {
                    None
                } else {
                    Some(
                        LineParts {
                            leading_ws: line.take(w),
                            export_prefix: has_export,
                            key,
                            value: rest.skip(eq + 1),
                        },
                    )
                }
            },
        }
    }
}

/// Parse one physical line as a binding, or nothing for blank lines,
/// comments, lines without `=`, and lines whose key is empty.
pub fn parse_var_line(line: &str) -> (r: Option<ParsedLine>)
    ensures
        r matches Some(p) ==> parse_line_spec(line@) == Some(p@),
        r is None ==> parse_line_spec(line@) is None,
{
    let n = line.unicode_len();
    let mut w: usize = 0;
    while w < n && is_ws_char(line.get_char(w))
        invariant
            0 <= w <= n,
            n == line@.len(),
            forall|j: int| 0 <= j < w ==> is_ascii_ws(line@[j]),
        decreases n - w,
    {
        w += 1;
    }
    proof {
        lemma_leading_ws_len_is(line@, w as int);
    }
    if w == n {
        return None;
    }
    let ghost trimmed = line@.skip(w as int);
    let c0 = line.get_char(w);
    if c0 == '#' {
        proof {
            assert(trimmed[0] == '#');
        }
        return None;
    }
    let has_export = n - w >= 7 && line.get_char(w) == 'e' && line.get_char(w + 1) == 'x'
        && line.get_char(w + 2) == 'p' && line.get_char(w + 3) == 'o' && line.get_char(w + 4)
        == 'r' && line.get_char(w + 5) == 't' && line.get_char(w + 6) == ' ';
    proof {
        if has_export {
            assert(trimmed.take(7) =~= export_seq());
        } else if trimmed.len() >= 7 {
            assert(trimmed.take(7) != export_seq()) by {
                if trimmed.take(7) == export_seq() {
                    assert(trimmed.take(7)[0] == 'e' && trimmed.take(7)[1] == 'x' && trimmed.take(
                        7,
                    )[2] == 'p' && trimmed.take(7)[3] == 'o' && trimmed.take(7)[4] == 'r'
                        && trimmed.take(7)[5] == 't' && trimmed.take(7)[6] == ' ');
                }
            }
        }
    }
    let rs: usize = if has_export {
        w + 7
    } else {
        w
    };
    let ghost rest = if has_export {
        trimmed.skip(7)
    } else {
        trimmed
    };
    proof {
        assert(rest =~= line@.skip(rs as int));
        lemma_find_char(rest, '=');
    }
    let mut eq: usize = rs;
    while eq < n && line.get_char(eq) != '='
        invariant
            rs <= eq <= n,
            n == line@.len(),
            forall|j: int| rs <= j < eq ==> line@[j] != '=',
        decreases n - eq,
    {
        eq += 1;
    }
    proof {
        assert(forall|j: int| 0 <= j < eq - rs ==> rest[j] == line@[j + rs] && rest[j] != '=');
    }
    if eq == n {
        proof {
            assert(find_char(rest, '=') is None);
        }
        return None;
    }
    proof {
        assert(rest[eq - rs] == '=');
        assert(find_char(rest, '=') == Some(eq - rs));
    }
    let mut ke: usize = eq;
    while ke > rs && is_ws_char(line.get_char(ke - 1))
        invariant
            rs <= ke <= eq,
            n == line@.len(),
            eq < n,
            forall|j: int| ke <= j < eq ==> is_ascii_ws(line@[j]),
        decreases ke,
    {
        ke -= 1;
    }
    let ghost key_field = rest.take(eq - rs);
    proof {
        assert(forall|j: int| 0 <= j < eq - rs ==> key_field[j] == line@[j + rs]);
        lemma_trim_end_ws_is(key_field, ke - rs);
        assert(trim_end_ws(key_field) == key_field.take(ke - rs));
    }
    if ke == rs {
        return None;
    }
    let p = ParsedLine {
        leading_ws: String::from_str(line.substring_char(0, w)),
        export_prefix: has_export,
        key: String::from_str(line.substring_char(rs, ke)),
        value: String::from_str(line.substring_char(eq + 1, n)),
    };
    proof {
        assert(p.leading_ws@ =~= line@.take(w as int));
        assert(p.key@ =~= key_field.take(ke - rs));
        assert(p.value@ =~= rest.skip(eq - rs + 1));
        assert(parse_line_spec(line@) == Some(p@));
    }
    Some(p)
}

/// Proof that splitting at a found newline shrinks the remainder.
#[via_fn]
proof fn raw_segments_decreases(s: Seq<char>) {
    lemma_find_char(s, '\n');
}

/// `s` split at every newline: the segments between newlines, in order,
/// including a final (possibly empty) segment after the last newline.
pub open spec fn raw_segments(s: Seq<char>) -> Seq<Seq<char>>
    decreases s.len(),
        via raw_segments_decreases
{
    match find_char(s, '\n') {
        None => seq![s],
        Some(i) => seq![s.take(i)] + raw_segments(s.skip(i + 1)),
    }
}

/// `l` with one trailing carriage return removed, as the line reader does.
pub open spec fn strip_cr(l: Seq<char>) -> Seq<char> {
    if l.len() > 0 && l.last() == '\r' {
        l.drop_last()
    } else {
        l
    }
}

/// The physical lines of `content`: newline-separated segments, without a
/// final empty segment (so a trailing newline adds no line), each with one
/// trailing carriage return stripped.
pub open spec fn lines_of(content: Seq<char>) -> Seq<Seq<char>> {
    let segs = raw_segments(content);
    let kept = if segs.last().len() == 0 {
        segs.drop_last()
    } else {
        segs
    };
    kept.map(|i: int, l: Seq<char>| strip_cr(l))
}

/// No segment of a split contains a newline.
pub proof fn lemma_raw_segments_no_newline(s: Seq<char>)
    ensures
        forall|i: int, j: int|
            0 <= i < raw_segments(s).len() && 0 <= j < raw_segments(s)[i].len() ==> #[trigger] raw_segments(
                s,
            )[i][j] != '\n',
    decreases s.len(),
{
    lemma_find_char(s, '\n');
    match find_char(s, '\n') {
        None => {},
        Some(i) => {
            let rest = raw_segments(s.skip(i + 1));
            lemma_raw_segments_no_newline(s.skip(i + 1));
            assert(forall|j: int| 0 <= j < i ==> s.take(i)[j] == s[j]);
            assert(forall|k: int|
                0 <= k < rest.len() ==> #[trigger] raw_segments(s)[k + 1] == rest[k]);
        },
    }
}

/// No line of any content contains a newline.
pub proof fn lemma_lines_no_newline(content: Seq<char>)
    ensures
        forall|i: int, j: int|
            0 <= i < lines_of(content).len() && 0 <= j < lines_of(content)[i].len()
                ==> #[trigger] lines_of(content)[i][j] != '\n',
{
    lemma_raw_segments_no_newline(content);
}

/// Split content into its physical lines.
pub fn split_content_lines(content: &str) -> (lines: Vec<String>)
    ensures
        lines.deep_view() == lines_of(content@),
{
    let n = content.unicode_len();
    let mut segs: Vec<String> = Vec::new();
    let mut start: usize = 0;
    let mut pos: usize = 0;
    proof {
        assert(segs.deep_view() =~= Seq::<Seq<char>>::empty());
        assert(content@.skip(0) =~= content@);
    }
    while pos < n
        invariant
            0 <= start <= pos <= n,
            n == content@.len(),
            forall|k: int| start <= k < pos ==> content@[k] != '\n',
            raw_segments(content@) =~= segs.deep_view() + raw_segments(
                content@.skip(start as int),
            ),
        decreases n - pos,
    {
        if content.get_char(pos) == '\n' {
            let seg = String::from_str(content.substring_char(start, pos));
            proof {
                let tail = content@.skip(start as int);
                lemma_find_char(tail, '\n');
                assert(forall|k: int|
                    0 <= k < pos - start ==> tail[k] == content@[k + start] && tail[k] != '\n');
                assert(tail[pos - start] == '\n');
                assert(find_char(tail, '\n') == Some(pos - start));
                assert(tail.take(pos - start) =~= content@.subrange(start as int, pos as int));
                assert(tail.skip(pos - start + 1) =~= content@.skip(pos + 1));
                assert(raw_segments(tail) == seq![seg@] + raw_segments(content@.skip(pos + 1)));
            }
            segs.push(seg);
            proof {
                assert(segs.deep_view() =~= segs.deep_view().take(segs.len() - 1).push(seg@));
            }
            start = pos + 1;
        }
        pos += 1;
    }
    let last_seg = String::from_str(content.substring_char(start, n));
    proof {
        let tail = content@.skip(start as int);
        lemma_find_char(tail, '\n');
        assert(forall|k: int|
            0 <= k < n - start ==> tail[k] == content@[k + start] && tail[k] != '\n');
        assert(find_char(tail, '\n') is None);
        assert(raw_segments(tail) == seq![tail]);
        assert(last_seg@ =~= tail);
    }
    segs.push(last_seg);
    proof {
        assert(segs.deep_view() =~= raw_segments(content@));
    }
    // Drop the final empty segment left by a trailing newline (or by empty
    // content), then strip one trailing carriage return from each line.
    let n_segs = segs.len();
    let keep = if segs[n_segs - 1].as_str().is_empty() {
        n_segs - 1
    } else {
        n_segs
    };
    let ghost kept = if raw_segments(content@).last().len() == 0 {
        raw_segments(content@).drop_last()
    } else {
        raw_segments(content@)
    };
    proof {
        assert(segs.deep_view().take(keep as int) =~= kept);
    }
    let mut lines: Vec<String> = Vec::new();
    let mut i: usize = 0;
    while i < keep
        invariant
            0 <= i <= keep <= segs.len(),
            segs.deep_view().take(keep as int) == kept,
            lines.deep_view() =~= kept.take(i as int).map(|k: int, l: Seq<char>| strip_cr(l)),
        decreases keep - i,
    {
        let seg = &segs[i];
        let m = seg.as_str().unicode_len();
        let line = if m > 0 && seg.as_str().get_char(m - 1) == '\r' {
            String::from_str(seg.as_str().substring_char(0, m - 1))
        } else {
            seg.clone()
        };
        proof {
            assert(kept[i as int] == seg@);
            if m > 0 && seg@[m - 1] == '\r' {
                assert(line@ =~= strip_cr(seg@));
            }
            assert(line@ == strip_cr(kept[i as int]));
        }
        lines.push(line);
        proof {
            assert(lines.deep_view() =~= lines.deep_view().take(lines.len() - 1).push(line@));
            assert(kept.take(i + 1) =~= kept.take(i as int).push(kept[i as int]));
            assert(kept.take(i + 1).map(|k: int, l: Seq<char>| strip_cr(l)) =~= kept.take(
                i as int,
            ).map(|k: int, l: Seq<char>| strip_cr(l)).push(strip_cr(kept[i as int])));
        }
        i += 1;
    }
    proof {
        assert(kept.take(keep as int) =~= kept);
        assert(lines.deep_view() =~= lines_of(content@));
    }
    lines
}

/// Whether `l` is a binding of `var`.
pub open spec fn line_matches(l: Seq<char>, var: Seq<char>) -> bool {
    match parse_line_spec(l) {
        Some(p) => p.key == var,
        None => false,
    }
}

/// The value of the last binding of `var` among `ls`, if any.
pub open spec fn read_lines_spec(ls: Seq<Seq<char>>, var: Seq<char>) -> Option<Seq<char>>
    decreases ls.len(),
{
    if ls.len() == 0 {
        None
    } else if line_matches(ls.last(), var) {
        Some(parse_line_spec(ls.last())->Some_0.value)
    } else {
        read_lines_spec(ls.drop_last(), var)
    }
}

/// The value of the last binding of `var` in `content`, if any.
pub open spec fn read_var_spec(content: Seq<char>, var: Seq<char>) -> Option<Seq<char>> {
    read_lines_spec(lines_of(content), var)
}

/// Scan `content` top to bottom and return the value of the last binding
/// of `var`, verbatim and uninterpreted, or nothing when `var` is unbound.
pub fn read_var(content: &str, var: &str) -> (r: Option<String>)
    ensures
        r matches Some(v) ==> read_var_spec(content@, var@) == Some(v@),
        r is None ==> read_var_spec(content@, var@) is None,
{
    let lines = split_content_lines(content);
    let ghost ls = lines_of(content@);
    let mut last: Option<String> = None;
    let n = lines.len();
    let mut i: usize = 0;
    while i < n
        invariant
            0 <= i <= n,
            n == lines.len(),
            lines.deep_view() == ls,
            match last {
                Some(v) => read_lines_spec(ls.take(i as int), var@) == Some(v@),
                None => read_lines_spec(ls.take(i as int), var@) is None,
            },
        decreases n - i,
    {
        proof {
            assert(lines[i as int]@ == ls[i as int]);
            assert(ls.take(i + 1).last() == ls[i as int]);
            assert(ls.take(i + 1).drop_last() =~= ls.take(i as int));
        }
        match parse_var_line(&lines[i]) {
            Some(p) => {
                if eq_str(p.key.as_str(), var) {
                    last = Some(p.value);
                } else {
                    assert(!line_matches(ls[i as int], var@));
                }
            },
            None => {
                assert(!line_matches(ls[i as int], var@));
            },
        }
        i += 1;
    }
    proof {
        assert(ls.take(n as int) =~= ls);
    }
    last
}

/// A binding line assembled from its parts: the leading whitespace, the
/// optional `export ` prefix, the key, `=`, and the verbatim value.
pub open spec fn build_line(ws: Seq<char>, export: bool, var: Seq<char>, value: Seq<char>) -> Seq<
    char,
> {
    ws + (if export {
        export_seq()
    } else {
        Seq::empty()
    }) + var + seq!['='] + value
}

/// `l` rewritten to bind `var` to `value` when it is a binding of `var`,
/// keeping its leading whitespace and `export` prefix; otherwise `l`
/// unchanged.
pub open spec fn rewrite_line(l: Seq<char>, var: Seq<char>, value: Seq<char>) -> Seq<char> {
    match parse_line_spec(l) {
        Some(p) => if p.key == var {
            build_line(p.leading_ws, p.export_prefix, var, value)
        } else {
            l
        },
        None => l,
    }
}

/// Whether some line of `ls` is a binding of `var`.
pub open spec fn any_match(ls: Seq<Seq<char>>, var: Seq<char>) -> bool {
    exists|i: int| 0 <= i < ls.len() && line_matches(#[trigger] ls[i], var)
}

/// The lines after an upsert: every binding of `var` rewritten in place
/// when one exists, else a plain `var=value` binding appended.
pub open spec fn upsert_lines(ls: Seq<Seq<char>>, var: Seq<char>, value: Seq<char>) -> Seq<
    Seq<char>,
> {
    if any_match(ls, var) {
        ls.map(|i: int, l: Seq<char>| rewrite_line(l, var, value))
    } else {
        ls.push(build_line(Seq::empty(), false, var, value))
    }
}

/// Lines joined with single newlines, without a terminator.
pub open spec fn join_lines(ls: Seq<Seq<char>>) -> Seq<char>
    decreases ls.len(),
{
    if ls.len() == 0 {
        Seq::empty()
    } else if ls.len() == 1 {
        ls[0]
    } else {
        ls[0] + seq!['\n'] + join_lines(ls.drop_first())
    }
}

/// Joining after adding a line appends it behind one newline (or is the
/// line itself when there was nothing).
pub proof fn lemma_join_push(ls: Seq<Seq<char>>, l: Seq<char>)
    ensures
        join_lines(ls.push(l)) == if ls.len() == 0 {
            l
        } else {
            join_lines(ls) + seq!['\n'] + l
        },
    decreases ls.len(),
{
    let p = ls.push(l);
    if ls.len() == 0 {
        assert(p.len() == 1 && p[0] == l);
    } else {
        lemma_join_push(ls.drop_first(), l);
        assert(p.drop_first() =~= ls.drop_first().push(l));
        if ls.len() == 1 {
            assert(join_lines(ls) == ls[0]);
        }
    }
}

/// The content after an upsert: the upserted lines joined with newlines,
/// with one trailing newline.
pub open spec fn upsert_spec(content: Seq<char>, var: Seq<char>, value: Seq<char>) -> Seq<char> {
    join_lines(upsert_lines(lines_of(content), var, value)) + seq!['\n']
}

/// A variable name that the engine round-trips cleanly: non-empty, not a
/// comment starter, and free of `=`, newlines and other ASCII whitespace.
pub open spec fn var_name_ok(v: Seq<char>) -> bool {
    v.len() > 0 && v[0] != '#' && forall|i: int|
        0 <= i < v.len() ==> (#[trigger] v[i]) != '=' && !is_ascii_ws(v[i])
}

/// A value that survives one write-then-read through the engine: no
/// embedded newline, and no trailing carriage return for the line reader
/// to strip.
pub open spec fn value_ok(x: Seq<char>) -> bool {
    (forall|i: int| 0 <= i < x.len() ==> (#[trigger] x[i]) != '\n') && (x.len() > 0 ==> x.last()
        != '\r')
}

/// Whether `l` ends with a carriage return.
pub open spec fn ends_cr(l: Seq<char>) -> bool {
    l.len() > 0 && l.last() == '\r'
}

/// Content whose lines carry no trailing carriage return, so that reading
/// them back yields them unchanged.
pub open spec fn no_cr_line_ends(content: Seq<char>) -> bool {
    forall|i: int| 0 <= i < lines_of(content).len() ==> !ends_cr(#[trigger] lines_of(content)[i])
}

/// A parsed line's leading whitespace is the line's whitespace prefix.
pub proof fn lemma_parse_line_ws(l: Seq<char>)
    requires
        parse_line_spec(l) is Some,
    ensures
        ({
            let p = parse_line_spec(l)->Some_0;
            p.leading_ws == l.take(leading_ws_len(l)) && forall|j: int|
                0 <= j < p.leading_ws.len() ==> is_ascii_ws(#[trigger] p.leading_ws[j])
        }),
{
    lemma_leading_ws_len(l);
}

/// A binding line assembled from hygienic parts parses back to exactly
/// those parts.
pub proof fn lemma_parse_build_line(ws: Seq<char>, export: bool, var: Seq<char>, value: Seq<char>)
    requires
        forall|i: int| 0 <= i < ws.len() ==> is_ascii_ws(#[trigger] ws[i]),
        var_name_ok(var),
    ensures
        parse_line_spec(build_line(ws, export, var, value)) == Some(
            LineParts { leading_ws: ws, export_prefix: export, key: var, value },
        ),
{
    let line = build_line(ws, export, var, value);
    let e: Seq<char> = if export {
        export_seq()
    } else {
        Seq::empty()
    };
    assert(line =~= ws + e + var + seq!['='] + value);
    assert(line[ws.len() as int] == if export {
        'e'
    } else {
        var[0]
    });
    assert(!is_ascii_ws(line[ws.len() as int]));
    lemma_leading_ws_len_is(line, ws.len() as int);
    let trimmed = line.skip(ws.len() as int);
    assert(trimmed =~= e + var + seq!['='] + value);
    assert(trimmed[0] != '#');
    if export {
        assert(trimmed.take(7) =~= export_seq());
    } else {
        if trimmed.len() >= 7 && trimmed.take(7) == export_seq() {
            if var.len() >= 7 {
                assert(trimmed[6] == var[6]);
                assert(trimmed.take(7)[6] == ' ');
                assert(is_ascii_ws(var[6]) == false);
                assert(false);
            } else {
                assert(trimmed[var.len() as int] == '=');
                assert(trimmed.take(7)[var.len() as int] == export_seq()[var.len() as int]);
                assert(export_seq()[var.len() as int] != '=');
                assert(false);
            }
        }
    }
    let rest = if export {
        trimmed.skip(7)
    } else {
        trimmed
    };
    assert(rest =~= var + seq!['='] + value);
    lemma_find_char(rest, '=');
    assert(rest[var.len() as int] == '=');
    assert(forall|j: int| 0 <= j < var.len() ==> rest[j] == var[j] && rest[j] != '=');
    assert(find_char(rest, '=') == Some(var.len() as int));
    assert(rest.take(var.len() as int) =~= var);
    lemma_trim_end_ws_is(var, var.len() as int);
    assert(var.take(var.len() as int) =~= var);
    assert(rest.skip(var.len() as int + 1) =~= value);
    assert(line.take(ws.len() as int) =~= ws);
}

/// Splitting the newline-terminated join of newline-free lines recovers
/// the lines, with the one empty segment the terminator adds.
proof fn lemma_raw_of_join(ls: Seq<Seq<char>>)
    requires
        ls.len() >= 1,
        forall|i: int, j: int|
            0 <= i < ls.len() && 0 <= j < ls[i].len() ==> (#[trigger] ls[i][j]) != '\n',
    ensures
        raw_segments(join_lines(ls) + seq!['\n']) == ls.push(Seq::empty()),
    decreases ls.len(),
{
    let full = join_lines(ls) + seq!['\n'];
    let l0 = ls[0];
    lemma_find_char(full, '\n');
    if ls.len() == 1 {
        assert(full =~= l0 + seq!['\n']);
        assert(forall|j: int| 0 <= j < l0.len() ==> full[j] == l0[j] && full[j] != '\n');
        assert(full[l0.len() as int] == '\n');
        assert(find_char(full, '\n') == Some(l0.len() as int));
        assert(full.take(l0.len() as int) =~= l0);
        assert(full.skip(l0.len() as int + 1) =~= Seq::<char>::empty());
        lemma_find_char(Seq::<char>::empty(), '\n');
        assert(find_char(Seq::<char>::empty(), '\n') is None);
        assert(raw_segments(Seq::<char>::empty()) == seq![Seq::<char>::empty()]);
        assert(raw_segments(full) == seq![l0] + seq![Seq::<char>::empty()]);
        assert(seq![l0] + seq![Seq::<char>::empty()] =~= ls.push(Seq::<char>::empty()));
    } else {
        let rest = ls.drop_first();
        assert(forall|i: int, j: int|
            0 <= i < rest.len() && 0 <= j < rest[i].len() ==> (#[trigger] rest[i][j]) == ls[i + 1][j]
                && rest[i][j] != '\n');
        lemma_raw_of_join(rest);
        assert(full =~= l0 + seq!['\n'] + (join_lines(rest) + seq!['\n']));
        assert(forall|j: int| 0 <= j < l0.len() ==> full[j] == l0[j] && full[j] != '\n');
        assert(full[l0.len() as int] == '\n');
        assert(find_char(full, '\n') == Some(l0.len() as int));
        assert(full.take(l0.len() as int) =~= l0);
        assert(full.skip(l0.len() as int + 1) =~= join_lines(rest) + seq!['\n']);
        assert(raw_segments(full) == seq![l0] + rest.push(Seq::<char>::empty()));
        assert(seq![l0] + rest.push(Seq::<char>::empty()) =~= ls.push(Seq::<char>::empty()));
    }
}

/// Splitting the newline-terminated join of tidy lines (newline-free, no
/// trailing carriage return) recovers exactly the lines.
proof fn lemma_lines_of_join(ls: Seq<Seq<char>>)
    requires
        ls.len() >= 1,
        forall|i: int, j: int|
            0 <= i < ls.len() && 0 <= j < ls[i].len() ==> (#[trigger] ls[i][j]) != '\n',
        forall|i: int| 0 <= i < ls.len() ==> !ends_cr(#[trigger] ls[i]),
    ensures
        lines_of(join_lines(ls) + seq!['\n']) == ls,
{
    lemma_raw_of_join(ls);
    let segs = ls.push(Seq::<char>::empty());
    assert(segs.last().len() == 0);
    assert(segs.drop_last() =~= ls);
    assert(lines_of(join_lines(ls) + seq!['\n']) =~= ls.map(|i: int, l: Seq<char>| strip_cr(l)));
    assert(forall|i: int| 0 <= i < ls.len() ==> strip_cr(#[trigger] ls[i]) == ls[i]);
    assert(ls.map(|i: int, l: Seq<char>| strip_cr(l)) =~= ls);
}

/// The lines of an upserted file are exactly the upserted lines: rewriting
/// and appending survive the write-then-split round trip, and the result
/// is again tidy.
pub proof fn lemma_lines_of_upsert(content: Seq<char>, var: Seq<char>, value: Seq<char>)
    requires
        var_name_ok(var),
        value_ok(value),
        no_cr_line_ends(content),
    ensures
        lines_of(upsert_spec(content, var, value)) == upsert_lines(lines_of(content), var, value),
        no_cr_line_ends(upsert_spec(content, var, value)),
{
    let ls = lines_of(content);
    let out_ls = upsert_lines(ls, var, value);
    lemma_lines_no_newline(content);
    assert forall|i: int, j: int|
        0 <= i < out_ls.len() && 0 <= j < out_ls[i].len() implies (#[trigger] out_ls[i][j])
        != '\n' by {
        lemma_upsert_line_tidy(ls, var, value, i);
    }
    assert forall|i: int| 0 <= i < out_ls.len() implies !ends_cr(#[trigger] out_ls[i]) by {
        lemma_upsert_line_tidy(ls, var, value, i);
    }
    if any_match(ls, var) {
        let w = choose|i: int| 0 <= i < ls.len() && line_matches(#[trigger] ls[i], var);
        assert(out_ls.len() == ls.len());
        assert(out_ls.len() >= 1);
    }
    lemma_lines_of_join(out_ls);
}

/// Each line produced by an upsert over tidy input is itself tidy: free of
/// newlines and of a trailing carriage return.
proof fn lemma_upsert_line_tidy(ls: Seq<Seq<char>>, var: Seq<char>, value: Seq<char>, i: int)
    requires
        var_name_ok(var),
        value_ok(value),
        forall|k: int, j: int|
            0 <= k < ls.len() && 0 <= j < ls[k].len() ==> (#[trigger] ls[k][j]) != '\n',
        forall|k: int| 0 <= k < ls.len() ==> !ends_cr(#[trigger] ls[k]),
        0 <= i < upsert_lines(ls, var, value).len(),
    ensures
        forall|j: int|
            0 <= j < upsert_lines(ls, var, value)[i].len() ==> (#[trigger] upsert_lines(
                ls,
                var,
                value,
            )[i][j]) != '\n',
        !ends_cr(upsert_lines(ls, var, value)[i]),
{
    let out_ls = upsert_lines(ls, var, value);
    let l = out_ls[i];
    if i < ls.len() && l == ls[i] {
        // an unchanged line is tidy by assumption
    }
    if any_match(ls, var) && line_matches(ls[i], var) {
        lemma_parse_line_ws(ls[i]);
        lemma_leading_ws_len(ls[i]);
        let p = parse_line_spec(ls[i])->Some_0;
        assert(l == build_line(p.leading_ws, p.export_prefix, var, value));
        assert(forall|j: int|
            0 <= j < p.leading_ws.len() ==> 0 <= j < ls[i].len() && (#[trigger] p.leading_ws[j])
                == ls[i][j]);
        lemma_build_line_tidy(p.leading_ws, p.export_prefix, var, value, ls[i]);
    } else if !any_match(ls, var) && i == ls.len() {
        assert(l == build_line(Seq::empty(), false, var, value));
        lemma_build_line_tidy(Seq::empty(), false, var, value, Seq::empty());
    }
}

/// A binding line built from newline-free parts is tidy.
proof fn lemma_build_line_tidy(
    ws: Seq<char>,
    export: bool,
    var: Seq<char>,
    value: Seq<char>,
    src: Seq<char>,
)
    requires
        var_name_ok(var),
        value_ok(value),
        forall|j: int| 0 <= j < src.len() ==> (#[trigger] src[j]) != '\n',
        forall|j: int| 0 <= j < ws.len() ==> 0 <= j < src.len() && (#[trigger] ws[j]) == src[j],
    ensures
        forall|j: int|
            0 <= j < build_line(ws, export, var, value).len() ==> (#[trigger] build_line(
                ws,
                export,
                var,
                value,
            )[j]) != '\n',
        !ends_cr(build_line(ws, export, var, value)),
{
    let e: Seq<char> = if export {
        export_seq()
    } else {
        Seq::empty()
    };
    let l = build_line(ws, export, var, value);
    assert(l =~= ws + e + var + seq!['='] + value);
    assert(forall|j: int| 0 <= j < e.len() ==> (#[trigger] e[j]) != '\n');
    assert(l.len() > 0);
    if value.len() > 0 {
        assert(l.last() == value.last());
    } else {
        assert(l.last() == '=');
    }
}

/// Rewrite every binding of `var` in `content` to `value`, byte-preserving
/// all other lines and each binding's leading whitespace and `export`
/// prefix; append `var=value` when no binding existed. The result is the
/// lines joined with `\n` and one trailing `\n`.
pub fn upsert_var(content: &str, var: &str, value: &str) -> (out: String)
    ensures
        out@ == upsert_spec(content@, var@, value@),
{
    let lines = split_content_lines(content);
    let ghost ls = lines_of(content@);
    let mut out_lines: Vec<String> = Vec::new();
    let mut replaced = false;
    let n = lines.len();
    let mut i: usize = 0;
    while i < n
        invariant
            0 <= i <= n,
            n == lines.len(),
            lines.deep_view() == ls,
            replaced == any_match(ls.take(i as int), var@),
            out_lines.deep_view() =~= ls.take(i as int).map(
                |k: int, l: Seq<char>| rewrite_line(l, var@, value@),
            ),
        decreases n - i,
    {
        proof {
            assert(lines[i as int]@ == ls[i as int]);
            assert(ls.take(i + 1) =~= ls.take(i as int).push(ls[i as int]));
        }
        let line_ref = &lines[i];
        let new_line: String = match parse_var_line(line_ref) {
            Some(p) => {
                if eq_str(p.key.as_str(), var) {
                    proof {
                        reveal_strlit("export ");
                        assert("export "@ =~= export_seq());
                        reveal_strlit("=");
                        assert("="@ =~= seq!['=']);
                    }
                    let mut nl = p.leading_ws;
                    if p.export_prefix {
                        nl.append("export ");
                    }
                    nl.append(var);
                    nl.append("=");
                    nl.append(value);
                    proof {
                        assert(nl@ =~= rewrite_line(ls[i as int], var@, value@));
                        assert(line_matches(ls[i as int], var@));
                    }
                    replaced = true;
                    nl
                } else {
                    proof {
                        assert(!line_matches(ls[i as int], var@));
                        assert(rewrite_line(ls[i as int], var@, value@) == ls[i as int]);
                    }
                    line_ref.clone()
                }
            },
            None => {
                proof {
                    assert(!line_matches(ls[i as int], var@));
                    assert(rewrite_line(ls[i as int], var@, value@) == ls[i as int]);
                }
                line_ref.clone()
            },
        };
        proof {
            if line_matches(ls[i as int], var@) {
                assert(ls.take(i + 1)[i as int] == ls[i as int]);
                assert(0 <= i < ls.take(i + 1).len() && line_matches(
                    #[trigger] ls.take(i + 1)[i as int],
                    var@,
                ));
                assert(any_match(ls.take(i + 1), var@));
            } else {
                assert(forall|k: int|
                    0 <= k < i + 1 && line_matches(#[trigger] ls.take(i + 1)[k], var@) ==> 0 <= k
                        < i && line_matches(ls.take(i as int)[k], var@));
            }
        }
        out_lines.push(new_line);
        proof {
            assert(out_lines.deep_view() =~= out_lines.deep_view().take(
                out_lines.len() - 1,
            ).push(new_line@));
            assert(ls.take(i + 1).map(|k: int, l: Seq<char>| rewrite_line(l, var@, value@)) =~= ls.take(
                i as int,
            ).map(|k: int, l: Seq<char>| rewrite_line(l, var@, value@)).push(
                rewrite_line(ls[i as int], var@, value@),
            ));
        }
        i += 1;
    }
    proof {
        assert(ls.take(n as int) =~= ls);
    }
    proof {
        assert(ls.take(n as int).map(|k: int, l: Seq<char>| rewrite_line(l, var@, value@)) =~= ls.map(
            |k: int, l: Seq<char>| rewrite_line(l, var@, value@),
        ));
    }
    if !replaced {
        proof {
            reveal_strlit("=");
            assert("="@ =~= seq!['=']);
            assert(forall|k: int| 0 <= k < ls.len() ==> !line_matches(#[trigger] ls[k], var@));
            assert(ls.map(|k: int, l: Seq<char>| rewrite_line(l, var@, value@)) =~= ls);
        }
        let mut nl = String::from_str(var);
        nl.append("=");
        nl.append(value);
        proof {
            assert(nl@ =~= build_line(Seq::empty(), false, var@, value@));
        }
        out_lines.push(nl);
        proof {
            assert(out_lines.deep_view() =~= out_lines.deep_view().take(
                out_lines.len() - 1,
            ).push(nl@));
        }
    }
    let ghost target = upsert_lines(ls, var@, value@);
    proof {
        assert(out_lines.deep_view() =~= target);
    }
    let mut out = String::new();
    let m = out_lines.len();
    let mut j: usize = 0;
    while j < m
        invariant
            0 <= j <= m,
            m == out_lines.len(),
            out_lines.deep_view() == target,
            out@ == join_lines(target.take(j as int)),
        decreases m - j,
    {
        proof {
            reveal_strlit("\n");
            assert("\n"@ =~= seq!['\n']);
            assert(target.take(j + 1) =~= target.take(j as int).push(target[j as int]));
            lemma_join_push(target.take(j as int), target[j as int]);
            assert(out_lines[j as int]@ == target[j as int]);
        }
        if j > 0 {
            out.append("\n");
        }
        out.append(out_lines[j].as_str());
        j += 1;
    }
    proof {
        reveal_strlit("\n");
        assert("\n"@ =~= seq!['\n']);
        assert(target.take(m as int) =~= target);
    }
    out.append("\n");
    out
}


/// Every binding of `var` among `ls2` carries `value`, and one exists: the
/// last-binding read returns `value`.
proof fn lemma_read_lines_rewritten(ls2: Seq<Seq<char>>, var: Seq<char>, value: Seq<char>)
    requires
        exists|i: int| 0 <= i < ls2.len() && line_matches(#[trigger] ls2[i], var),
        forall|i: int|
            0 <= i < ls2.len() && line_matches(#[trigger] ls2[i], var) ==> parse_line_spec(
                ls2[i],
            )->Some_0.value == value,
    ensures
        read_lines_spec(ls2, var) == Some(value),
    decreases ls2.len(),
{
    if line_matches(ls2.last(), var) {
    } else {
        let d = ls2.drop_last();
        let w = choose|i: int| 0 <= i < ls2.len() && line_matches(#[trigger] ls2[i], var);
        assert(w < ls2.len() - 1);
        assert(d[w] == ls2[w]);
        assert(forall|i: int| 0 <= i < d.len() ==> #[trigger] d[i] == ls2[i]);
        lemma_read_lines_rewritten(d, var, value);
    }
}

/// An upsert leaves some binding of `var`, every binding of `var` it
/// leaves carries `value`, and unmatched lines stay unmatched.
proof fn lemma_upsert_lines_bindings(ls: Seq<Seq<char>>, var: Seq<char>, value: Seq<char>)
    requires
        var_name_ok(var),
    ensures
        ({
            let out_ls = upsert_lines(ls, var, value);
            &&& any_match(out_ls, var)
            &&& forall|i: int|
                0 <= i < out_ls.len() && line_matches(#[trigger] out_ls[i], var)
                    ==> parse_line_spec(out_ls[i])->Some_0.value == value
            &&& forall|i: int|
                0 <= i < out_ls.len() ==> line_matches(#[trigger] out_ls[i], var) == (
                    if i < ls.len() {
                        line_matches(ls[i], var)
                    } else {
                        true
                    })
        }),
{
    let out_ls = upsert_lines(ls, var, value);
    if any_match(ls, var) {
        let w = choose|i: int| 0 <= i < ls.len() && line_matches(#[trigger] ls[i], var);
        assert forall|i: int| 0 <= i < out_ls.len() implies line_matches(#[trigger] out_ls[i], var)
            == line_matches(ls[i], var) && (line_matches(out_ls[i], var) ==> parse_line_spec(
            out_ls[i],
        )->Some_0.value == value) by {
            if line_matches(ls[i], var) {
                lemma_parse_line_ws(ls[i]);
                let p = parse_line_spec(ls[i])->Some_0;
                lemma_parse_build_line(p.leading_ws, p.export_prefix, var, value);
            }
        }
        assert(line_matches(out_ls[w], var));
        assert(any_match(out_ls, var));
    } else {
        lemma_parse_build_line(Seq::empty(), false, var, value);
        let last = ls.len() as int;
        assert(out_ls[last] == build_line(Seq::empty(), false, var, value));
        assert(line_matches(out_ls[last], var));
        assert(any_match(out_ls, var));
        assert(forall|i: int| 0 <= i < ls.len() ==> #[trigger] out_ls[i] == ls[i]);
    }
}

/// Upserting a binding is idempotent: writing the same variable and value
/// twice produces the same file content as writing it once. Holds for
/// hygienic variable names and values over content whose lines carry no
/// trailing carriage return.
pub proof fn lemma_upsert_idempotent(content: Seq<char>, var: Seq<char>, value: Seq<char>)
    requires
        var_name_ok(var),
        value_ok(value),
        no_cr_line_ends(content),
    ensures
        upsert_spec(upsert_spec(content, var, value), var, value) == upsert_spec(
            content,
            var,
            value,
        ),
{
    let ls = lines_of(content);
    let out = upsert_spec(content, var, value);
    let out_ls = upsert_lines(ls, var, value);
    lemma_lines_of_upsert(content, var, value);
    lemma_upsert_lines_bindings(ls, var, value);
    assert(lines_of(out) == out_ls);
    assert forall|k: int| 0 <= k < out_ls.len() implies rewrite_line(
        #[trigger] out_ls[k],
        var,
        value,
    ) == out_ls[k] by {
        if line_matches(out_ls[k], var) {
            if any_match(ls, var) || k < ls.len() {
                lemma_parse_line_ws(ls[k]);
                let p = parse_line_spec(ls[k])->Some_0;
                lemma_parse_build_line(p.leading_ws, p.export_prefix, var, value);
                let q = parse_line_spec(out_ls[k])->Some_0;
                lemma_parse_build_line(q.leading_ws, q.export_prefix, var, value);
            } else {
                lemma_parse_build_line(Seq::empty(), false, var, value);
            }
        }
    }
    assert(upsert_lines(out_ls, var, value) =~= out_ls);
    assert(upsert_spec(out, var, value) == out);
}

/// Upserting preserves everything else: lines that are not bindings of
/// `var` are unchanged in content and position; each binding of `var` is
/// rewritten in place keeping its leading whitespace and `export` prefix;
/// and when no binding existed, the only change is one appended binding.
pub proof fn lemma_upsert_preserves_lines(content: Seq<char>, var: Seq<char>, value: Seq<char>)
    requires
        var_name_ok(var),
        value_ok(value),
        no_cr_line_ends(content),
    ensures
        ({
            let ls = lines_of(content);
            let out_ls = lines_of(upsert_spec(content, var, value));
            &&& (any_match(ls, var) ==> out_ls.len() == ls.len())
            &&& (!any_match(ls, var) ==> out_ls.len() == ls.len() + 1 && out_ls.last()
                == build_line(Seq::empty(), false, var, value))
            &&& forall|i: int|
                0 <= i < ls.len() && !line_matches(#[trigger] ls[i], var) ==> out_ls[i] == ls[i]
            &&& forall|i: int|
                0 <= i < ls.len() && line_matches(#[trigger] ls[i], var) ==> out_ls[i]
                    == build_line(
                    parse_line_spec(ls[i])->Some_0.leading_ws,
                    parse_line_spec(ls[i])->Some_0.export_prefix,
                    var,
                    value,
                )
        }),
{
    let ls = lines_of(content);
    lemma_lines_of_upsert(content, var, value);
    if !any_match(ls, var) {
        assert(forall|i: int|
            0 <= i < ls.len() ==> !line_matches(#[trigger] ls[i], var) && upsert_lines(
                ls,
                var,
                value,
            )[i] == ls[i]);
    }
}

/// Reading a variable right after upserting it returns the upserted
/// value: the appended or rewritten binding is found, and every surviving
/// binding of the variable carries the new value, so the last one wins
/// with it.
pub proof fn lemma_read_after_upsert(content: Seq<char>, var: Seq<char>, value: Seq<char>)
    requires
        var_name_ok(var),
        value_ok(value),
        no_cr_line_ends(content),
    ensures
        read_var_spec(upsert_spec(content, var, value), var) == Some(value),
{
    let ls = lines_of(content);
    let out_ls = upsert_lines(ls, var, value);
    lemma_lines_of_upsert(content, var, value);
    lemma_upsert_lines_bindings(ls, var, value);
    lemma_read_lines_rewritten(out_ls, var, value);
}

} // verus!
