//! The converter: a pure function from the text of a percent-delimited
//! script and a separator pattern to the text of a cell-based notebook
//! source.
//!
//! The document is split into sections at every line that begins with the
//! separator; the part before the first separator is the setup section, the
//! rest are cells. A section whose lines are all blank or comments is
//! dropped. Every emitted section gets a generated header, its lines are
//! indented by one tab stop (blank lines stay unindented), and the whole
//! output is wrapped in a fixed header and footer.

use vstd::prelude::*;
use vstd::string::StrSliceExecFns;

use crate::str_views;

verus! {

/// The characters treated as whitespace when lines and sections are
/// trimmed: the ASCII whitespace set.
pub open spec fn is_space(c: char) -> bool {
    c == ' ' || c == '\t' || c == '\n' || c == '\r' || c == '\u{b}' || c == '\u{c}'
}

/// The view of the fixed output header.
pub open spec fn header_text() -> Seq<char> {
    "import marimo\n\napp = marimo.App()\n"@
}

/// The view of the header that opens the setup block.
pub open spec fn setup_header_text() -> Seq<char> {
    "\nwith app.setup:\n"@
}

/// The view of the header that opens each cell block.
pub open spec fn cell_header_text() -> Seq<char> {
    "\n\n@app.cell\ndef _():\n"@
}

/// The view of the fixed output footer: the entry-point guard that invokes
/// the notebook runner.
pub open spec fn footer_text() -> Seq<char> {
    "\nif __name__ == \"__main__\":\n    app.run()\n"@
}

/// The view of one tab stop of indentation.
pub open spec fn tab_text() -> Seq<char> {
    "    "@
}

/// `s` with leading whitespace removed.
pub open spec fn trim_start(s: Seq<char>) -> Seq<char>
    decreases s.len(),
{
    if s.len() > 0 && is_space(s[0]) {
        trim_start(s.drop_first())
    } else {
        s
    }
}

/// `s` with trailing whitespace removed.
pub open spec fn trim_end(s: Seq<char>) -> Seq<char>
    decreases s.len(),
{
    if s.len() > 0 && is_space(s.last()) {
        trim_end(s.drop_last())
    } else {
        s
    }
}

/// `s` with whitespace removed from both ends.
pub open spec fn trim(s: Seq<char>) -> Seq<char> {
    trim_end(trim_start(s))
}

/// Removes whitespace from both ends of `s`.
pub fn trim_str(s: &str) -> (r: String)
    ensures
        r@ == trim(s@),
{
    let n = s.unicode_len();
    proof {
        assert(s@.subrange(0, n as int) =~= s@);
    }
    let mut a: usize = 0;
    while a < n && is_space_char(s.get_char(a))
        invariant
            0 <= a <= n,
            n == s@.len(),
            trim_start(s@) == trim_start(s@.subrange(a as int, n as int)),
        decreases n - a,
    {
        proof {
            assert(s@.subrange(a as int, n as int).drop_first()
                =~= s@.subrange(a + 1, n as int));
        }
        a = a + 1;
    }
    proof {
        assert(s@.subrange(0, n as int) =~= s@);
        assert(trim_start(s@) =~= s@.subrange(a as int, n as int));
    }
    let mut b: usize = n;
    while b > a && is_space_char(s.get_char(b - 1))
        invariant
            a <= b <= n,
            n == s@.len(),
            trim_start(s@) == s@.subrange(a as int, n as int),
            trim_end(s@.subrange(a as int, n as int)) == trim_end(
                s@.subrange(a as int, b as int),
            ),
        decreases b,
    {
        proof {
            assert(s@.subrange(a as int, b as int).drop_last()
                =~= s@.subrange(a as int, b - 1));
        }
        b = b - 1;
    }
    proof {
        assert(trim_end(s@.subrange(a as int, b as int)) =~= s@.subrange(a as int, b as int));
    }
    s.substring_char(a, b).to_owned()
}

/// Decides whether `c` is one of the whitespace characters the converter
/// trims.
pub fn is_space_char(c: char) -> (r: bool)
    ensures
        r == is_space(c),
{
    c == ' ' || c == '\t' || c == '\n' || c == '\r' || c == '\u{b}' || c == '\u{c}'
}

/// The index of the first line feed in `s`, or `s.len()` if there is none.
pub open spec fn first_nl(s: Seq<char>) -> int
    decreases s.len(),
{
    if s.len() == 0 {
        0
    } else if s[0] == '\n' {
        0
    } else {
        1 + first_nl(s.drop_first())
    }
}

/// `l` with one trailing carriage return removed: the treatment a line gets
/// when the line feed that ended it followed a carriage return.
pub open spec fn strip_cr(l: Seq<char>) -> Seq<char> {
    if l.len() > 0 && l.last() == '\r' {
        l.drop_last()
    } else {
        l
    }
}

/// The lines of `s`: pieces between line feeds, each with a carriage return
/// before the line feed removed. A final line feed ends the last line; it
/// does not open an empty one.
pub open spec fn lines(s: Seq<char>) -> Seq<Seq<char>>
    decreases s.len(),
{
    if s.len() == 0 {
        seq![]
    } else {
        let i = first_nl(s);
        if 0 <= i < s.len() {
            seq![strip_cr(s.subrange(0, i))] + lines(s.subrange(i + 1, s.len() as int))
        } else {
            seq![s]
        }
    }
}

/// A position whose prefix holds no line feed and that is a line feed (or
/// the end) is exactly `first_nl`.
proof fn lemma_first_nl_at(s: Seq<char>, m: int)
    requires
        0 <= m <= s.len(),
        forall|j: int| 0 <= j < m ==> s[j] != '\n',
        m < s.len() ==> s[m] == '\n',
    ensures
        first_nl(s) == m,
    decreases s.len(),
{
    if s.len() > 0 && m > 0 {
        assert(forall|j: int| 0 <= j < m - 1 ==> s.drop_first()[j] != '\n');
        lemma_first_nl_at(s.drop_first(), m - 1);
    }
}

/// Splits `s` into its lines.
pub fn split_lines(s: &str) -> (r: Vec<String>)
    ensures
        str_views(r@) == lines(s@),
{
    let n = s.unicode_len();
    let mut r: Vec<String> = Vec::new();
    let mut start: usize = 0;
    let mut i: usize = 0;
    proof {
        assert(s@.subrange(0, n as int) =~= s@);
    }
    while i < n
        invariant
            0 <= start <= i <= n,
            n == s@.len(),
            forall|j: int| start <= j < i ==> s@[j] != '\n',
            lines(s@) == str_views(r@) + lines(s@.subrange(start as int, n as int)),
        decreases n - i,
    {
        if s.get_char(i) == '\n' {
            let line = if i > start && s.get_char(i - 1) == '\r' {
                s.substring_char(start, i - 1)
            } else {
                s.substring_char(start, i)
            };
            let ghost prev = r@;
            r.push(line.to_owned());
            proof {
                let rest = s@.subrange(start as int, n as int);
                assert(forall|j: int|
                    0 <= j < i - start ==> rest[j] == s@[start + j] && rest[j] != '\n');
                lemma_first_nl_at(rest, i - start);
                assert(rest.subrange(0, i - start) =~= s@.subrange(start as int, i as int));
                assert(rest.subrange(i - start + 1, rest.len() as int) =~= s@.subrange(
                    i + 1,
                    n as int,
                ));
                if i > start && s@[i - 1] == '\r' {
                    assert(strip_cr(s@.subrange(start as int, i as int)) =~= s@.subrange(
                        start as int,
                        i - 1,
                    ));
                } else {
                    assert(strip_cr(s@.subrange(start as int, i as int)) =~= s@.subrange(
                        start as int,
                        i as int,
                    ));
                }
                assert(str_views(r@) =~= str_views(prev).push(line@));
                assert(str_views(prev) + lines(rest) =~= str_views(r@) + lines(
                    s@.subrange(i + 1, n as int),
                ));
            }
            start = i + 1;
            i = i + 1;
        } else {
            i = i + 1;
        }
    }
    if start < n {
        let line = s.substring_char(start, n);
        let ghost prev = r@;
        r.push(line.to_owned());
        proof {
            let rest = s@.subrange(start as int, n as int);
            assert(forall|j: int|
                0 <= j < n - start ==> rest[j] == s@[start + j] && rest[j] != '\n');
            lemma_first_nl_at(rest, n - start);
            assert(lines(rest) =~= seq![rest]);
            assert(str_views(r@) =~= str_views(prev).push(line@));
            assert(str_views(r@) =~= str_views(prev) + lines(rest));
        }
    }
    proof {
        if start >= n {
            assert(lines(s@.subrange(start as int, n as int)) =~= Seq::<Seq<char>>::empty());
        }
        assert(str_views(r@) =~= lines(s@));
    }
    r
}

/// A line with no character beyond whitespace.
pub open spec fn is_blank(l: Seq<char>) -> bool {
    forall|j: int| 0 <= j < l.len() ==> is_space(l[j])
}

/// A line that counts as code: not blank, and not a comment line. A comment
/// line is one whose first character (before any trimming) is `#`.
pub open spec fn line_is_code(l: Seq<char>) -> bool {
    !is_blank(l) && l.len() > 0 && l[0] != '#'
}

/// Decides whether `l` counts as code.
pub fn line_has_code(l: &str) -> (r: bool)
    ensures
        r == line_is_code(l@),
{
    let n = l.unicode_len();
    if n == 0 {
        return false;
    }
    if l.get_char(0) == '#' {
        return false;
    }
    let mut j: usize = 0;
    while j < n && is_space_char(l.get_char(j))
        invariant
            0 <= j <= n,
            n == l@.len(),
            forall|k: int| 0 <= k < j ==> is_space(l@[k]),
        decreases n - j,
    {
        j = j + 1;
    }
    j < n
}

/// A rendered line of a section body: blank lines stay bare, others are
/// indented by one tab stop; every line ends in a line feed.
pub open spec fn rendered_line(l: Seq<char>) -> Seq<char> {
    if l.len() == 0 {
        seq!['\n']
    } else {
        tab_text() + l + seq!['\n']
    }
}

/// The rendered body of a section: its lines rendered in order.
pub open spec fn rendered_lines(ls: Seq<Seq<char>>) -> Seq<char>
    decreases ls.len(),
{
    if ls.len() == 0 {
        Seq::empty()
    } else {
        rendered_line(ls[0]) + rendered_lines(ls.drop_first())
    }
}

/// Rendering one more line appends its rendering.
proof fn lemma_rendered_lines_push(ls: Seq<Seq<char>>, l: Seq<char>)
    ensures
        rendered_lines(ls.push(l)) == rendered_lines(ls) + rendered_line(l),
    decreases ls.len(),
{
    if ls.len() == 0 {
        assert(ls.push(l).drop_first() =~= Seq::<Seq<char>>::empty());
        assert(rendered_lines(Seq::<Seq<char>>::empty()) == Seq::<char>::empty());
        assert(ls.push(l)[0] == l);
        assert(rendered_lines(ls.push(l)) =~= rendered_line(l));
        assert(rendered_lines(ls) + rendered_line(l) =~= rendered_line(l));
    } else {
        assert(ls.push(l).drop_first() =~= ls.drop_first().push(l));
        assert(ls.push(l)[0] == ls[0]);
        lemma_rendered_lines_push(ls.drop_first(), l);
        assert(rendered_lines(ls.push(l)) =~= rendered_lines(ls) + rendered_line(l));
    }
}

/// Whether a section holds at least one code line, judged on the lines of
/// the trimmed section text.
pub open spec fn section_is_code(s: Seq<char>) -> bool {
    exists|j: int|
        0 <= j < lines(trim(s)).len() && line_is_code(lines(trim(s))[j])
}

/// The body a section contributes to the output when it holds code: the
/// rendered lines of its trimmed text.
pub open spec fn section_body_text(s: Seq<char>) -> Seq<char> {
    rendered_lines(lines(trim(s)))
}

/// The section helper: trims the section, and returns the rendered body if
/// any of its lines is code, or nothing for a blank-only or comment-only
/// section.
pub fn section_body(s: &str) -> (r: Option<String>)
    ensures
        r is Some <==> section_is_code(s@),
        r matches Some(b) ==> b@ == section_body_text(s@),
{
    let trimmed = trim_str(s);
    let ls = split_lines(trimmed.as_str());
    let mut found = false;
    let mut j: usize = 0;
    while j < ls.len()
        invariant
            0 <= j <= ls@.len(),
            str_views(ls@) == lines(trim(s@)),
            found == exists|k: int| 0 <= k < j && line_is_code(str_views(ls@)[k]),
        decreases ls@.len() - j,
    {
        if line_has_code(ls[j].as_str()) {
            proof {
                assert(str_views(ls@)[j as int] == ls@[j as int]@);
            }
            found = true;
        }
        j = j + 1;
    }
    if !found {
        return None;
    }
    let mut body = String::new();
    proof {
        assert(str_views(ls@).subrange(0, 0) =~= Seq::<Seq<char>>::empty());
    }
    let mut k: usize = 0;
    while k < ls.len()
        invariant
            0 <= k <= ls@.len(),
            str_views(ls@) == lines(trim(s@)),
            body@ == rendered_lines(str_views(ls@).subrange(0, k as int)),
        decreases ls@.len() - k,
    {
        let ghost prefix = str_views(ls@).subrange(0, k as int);
        let line = &ls[k];
        if line.as_str().unicode_len() != 0 {
            body.append("    ");
        }
        body.append(line.as_str());
        body.append("\n");
        proof {
            reveal_strlit("\n");
            lemma_rendered_lines_push(prefix, line@);
            assert(str_views(ls@).subrange(0, k + 1) =~= prefix.push(line@));
            assert(str_views(ls@)[k as int] == ls@[k as int]@);
            assert("\n"@ =~= seq!['\n']);
            assert(body@ =~= rendered_lines(prefix) + rendered_line(line@));
        }
        k = k + 1;
    }
    proof {
        assert(str_views(ls@).subrange(0, ls@.len() as int) =~= str_views(ls@));
    }
    Some(body)
}

/// Whether an occurrence of the separator starts at position `i` of `s`:
/// the separator's characters stand there, and `i` is the start of a line.
pub open spec fn boundary_at(s: Seq<char>, sep: Seq<char>, i: int) -> bool {
    &&& 0 <= i
    &&& i + sep.len() <= s.len()
    &&& s.subrange(i, i + sep.len()) == sep
    &&& (i == 0 || s[i - 1] == '\n')
}

/// The sections of `s` from scan position `i` on, the current section having
/// started at `start`: scanning left to right, every line-anchored occurrence
/// of the separator closes the section before it and is itself discarded.
pub open spec fn split_from(s: Seq<char>, sep: Seq<char>, i: int, start: int) -> Seq<Seq<char>>
    recommends
        sep.len() >= 1,
        0 <= start <= i <= s.len(),
    decreases s.len() - i,
        when sep.len() >= 1 && 0 <= i <= s.len()
{
    if i + sep.len() > s.len() {
        seq![s.subrange(start, s.len() as int)]
    } else if boundary_at(s, sep, i) {
        seq![s.subrange(start, i)] + split_from(s, sep, i + sep.len(), i + sep.len())
    } else {
        split_from(s, sep, i + 1, start)
    }
}

/// The sections of `s`: the text before the first separator occurrence (the
/// setup section), then the text between consecutive occurrences. An empty
/// separator marks no boundary, so the whole document is the setup section.
pub open spec fn sections(s: Seq<char>, sep: Seq<char>) -> Seq<Seq<char>> {
    if sep.len() == 0 {
        seq![s]
    } else {
        split_from(s, sep, 0, 0)
    }
}

/// Decides whether the separator stands at position `i` of `s`, anchored at
/// a line start.
fn boundary_at_exec(s: &str, sep: &str, i: usize) -> (r: bool)
    requires
        i + sep@.len() <= s@.len(),
    ensures
        r == boundary_at(s@, sep@, i as int),
{
    if i != 0 && s.get_char(i - 1) != '\n' {
        proof {
            assert(!boundary_at(s@, sep@, i as int));
        }
        return false;
    }
    let n = s.unicode_len();
    let k = sep.unicode_len();
    let mut j: usize = 0;
    while j < k
        invariant
            0 <= j <= k,
            k == sep@.len(),
            n == s@.len(),
            i + k <= n,
            forall|m: int| 0 <= m < j ==> s@[i + m] == sep@[m],
        decreases k - j,
    {
        if s.get_char(i + j) != sep.get_char(j) {
            proof {
                assert(s@.subrange(i as int, i + k) != sep@) by {
                    assert(s@.subrange(i as int, i + k)[j as int] == s@[i + j]);
                }
            }
            return false;
        }
        j = j + 1;
    }
    proof {
        assert(s@.subrange(i as int, i + k) =~= sep@);
    }
    true
}

/// Splits `s` into its sections at every line-anchored occurrence of the
/// separator.
pub fn split_sections(s: &str, sep: &str) -> (r: Vec<String>)
    ensures
        str_views(r@) == sections(s@, sep@),
        r@.len() >= 1,
{
    let n = s.unicode_len();
    let k = sep.unicode_len();
    if k == 0 {
        let mut r: Vec<String> = Vec::new();
        r.push(s.to_owned());
        proof {
            assert(str_views(r@) =~= seq![s@]);
        }
        return r;
    }
    let mut r: Vec<String> = Vec::new();
    if k > n {
        r.push(s.to_owned());
        proof {
            assert(split_from(s@, sep@, 0, 0) =~= seq![s@.subrange(0, n as int)]);
            assert(s@.subrange(0, n as int) =~= s@);
            assert(str_views(r@) =~= seq![s@]);
        }
        return r;
    }
    let mut start: usize = 0;
    let mut i: usize = 0;
    while i <= n - k
        invariant
            0 <= start <= i <= n,
            k == sep@.len(),
            n == s@.len(),
            1 <= k <= n,
            sections(s@, sep@) == str_views(r@) + split_from(
                s@,
                sep@,
                i as int,
                start as int,
            ),
        decreases n - i,
    {
        if boundary_at_exec(s, sep, i) {
            let piece = s.substring_char(start, i);
            let ghost prev = r@;
            r.push(piece.to_owned());
            proof {
                assert(str_views(r@) =~= str_views(prev).push(piece@));
                assert(str_views(prev) + split_from(s@, sep@, i as int, start as int)
                    =~= str_views(r@) + split_from(s@, sep@, i + k, i + k));
            }
            start = i + k;
            i = i + k;
        } else {
            i = i + 1;
        }
    }
    let piece = s.substring_char(start, n);
    let ghost prev = r@;
    r.push(piece.to_owned());
    proof {
        assert(split_from(s@, sep@, i as int, start as int) =~= seq![
            s@.subrange(start as int, n as int),
        ]);
        assert(str_views(r@) =~= str_views(prev).push(piece@));
        assert(str_views(r@) =~= str_views(prev) + split_from(
            s@,
            sep@,
            i as int,
            start as int,
        ));
    }
    r
}

/// The block a section contributes to the output: its header and rendered
/// body when it holds code, nothing otherwise.
pub open spec fn section_block(header: Seq<char>, s: Seq<char>) -> Seq<char> {
    if section_is_code(s) {
        header + section_body_text(s)
    } else {
        Seq::empty()
    }
}

/// The blocks of the cell sections, in order.
pub open spec fn cell_blocks(cells: Seq<Seq<char>>) -> Seq<char>
    decreases cells.len(),
{
    if cells.len() == 0 {
        Seq::empty()
    } else {
        section_block(cell_header_text(), cells[0]) + cell_blocks(cells.drop_first())
    }
}

/// Whether any cell section holds code.
pub open spec fn any_cell_code(cells: Seq<Seq<char>>) -> bool {
    exists|j: int| 0 <= j < cells.len() && section_is_code(cells[j])
}

/// One more cell appends its block.
proof fn lemma_cell_blocks_push(cells: Seq<Seq<char>>, c: Seq<char>)
    ensures
        cell_blocks(cells.push(c)) == cell_blocks(cells) + section_block(cell_header_text(), c),
    decreases cells.len(),
{
    if cells.len() == 0 {
        assert(cells.push(c).drop_first() =~= Seq::<Seq<char>>::empty());
        assert(cell_blocks(Seq::<Seq<char>>::empty()) == Seq::<char>::empty());
        assert(cells.push(c)[0] == c);
        assert(cell_blocks(cells.push(c)) =~= section_block(cell_header_text(), c));
        assert(cell_blocks(cells) + section_block(cell_header_text(), c) =~= section_block(
            cell_header_text(),
            c,
        ));
    } else {
        assert(cells.push(c).drop_first() =~= cells.drop_first().push(c));
        assert(cells.push(c)[0] == cells[0]);
        lemma_cell_blocks_push(cells.drop_first(), c);
        assert(cell_blocks(cells.push(c)) =~= cell_blocks(cells) + section_block(
            cell_header_text(),
            c,
        ));
    }
}

/// The converted document: the fixed header; the setup block, if the setup
/// section holds code; each cell's block; one extra blank line when at least
/// one cell block was emitted; and the fixed footer.
pub open spec fn converted(content: Seq<char>, sep: Seq<char>) -> Seq<char> {
    let secs = sections(content, sep);
    header_text() + section_block(setup_header_text(), secs[0]) + cell_blocks(secs.drop_first())
        + (if any_cell_code(secs.drop_first()) {
        seq!['\n']
    } else {
        Seq::<char>::empty()
    }) + footer_text()
}

/// Converts the text of a percent-delimited script into the text of a
/// cell-based notebook source, splitting at every line that begins with
/// `separator`.
pub fn run_convert_command(content: &str, separator: &str) -> (r: String)
    ensures
        r@ == converted(content@, separator@),
{
    let secs = split_sections(content, separator);
    let ghost views = str_views(secs@);
    let mut out = String::new();
    out.append("import marimo\n\napp = marimo.App()\n");
    proof {
        assert(out@ =~= header_text());
    }
    match section_body(secs[0].as_str()) {
        Some(body) => {
            out.append("\nwith app.setup:\n");
            out.append(body.as_str());
            proof {
                assert(out@ =~= header_text() + section_block(setup_header_text(), views[0]));
            }
        },
        None => {
            proof {
                assert(out@ =~= header_text() + section_block(setup_header_text(), views[0]));
            }
        },
    }
    let mut any_cell = false;
    let mut idx: usize = 1;
    proof {
        assert(views.subrange(1, 1) =~= Seq::<Seq<char>>::empty());
        assert(cell_blocks(Seq::<Seq<char>>::empty()) == Seq::<char>::empty());
        assert(out@ + cell_blocks(views.subrange(1, 1)) =~= out@);
    }
    while idx < secs.len()
        invariant
            1 <= idx <= secs@.len(),
            views == str_views(secs@),
            views == sections(content@, separator@),
            out@ == header_text() + section_block(setup_header_text(), views[0]) + cell_blocks(
                views.subrange(1, idx as int),
            ),
            any_cell == any_cell_code(views.subrange(1, idx as int)),
        decreases secs@.len() - idx,
    {
        let ghost done = views.subrange(1, idx as int);
        match section_body(secs[idx].as_str()) {
            Some(body) => {
                out.append("\n\n@app.cell\ndef _():\n");
                out.append(body.as_str());
                any_cell = true;
                proof {
                    assert(views[idx as int] == secs@[idx as int]@);
                    assert(section_is_code(views[idx as int]));
                    lemma_cell_blocks_push(done, views[idx as int]);
                    assert(views.subrange(1, idx + 1) =~= done.push(views[idx as int]));
                    assert(out@ =~= header_text() + section_block(setup_header_text(), views[0])
                        + cell_blocks(views.subrange(1, idx + 1)));
                    assert(views.subrange(1, idx + 1)[idx - 1] == views[idx as int]);
                    assert(any_cell_code(views.subrange(1, idx + 1)));
                }
            },
            None => {
                proof {
                    assert(views[idx as int] == secs@[idx as int]@);
                    assert(!section_is_code(views[idx as int]));
                    lemma_cell_blocks_push(done, views[idx as int]);
                    assert(views.subrange(1, idx + 1) =~= done.push(views[idx as int]));
                    assert(out@ =~= header_text() + section_block(setup_header_text(), views[0])
                        + cell_blocks(views.subrange(1, idx + 1)));
                    assert forall|j: int|
                        0 <= j < views.subrange(1, idx + 1).len() implies (section_is_code(
                        views.subrange(1, idx + 1)[j],
                    ) == (j < done.len() && section_is_code(done[j]))) by {
                        if j < done.len() {
                            assert(views.subrange(1, idx + 1)[j] == done[j]);
                        } else {
                            assert(views.subrange(1, idx + 1)[j] == views[idx as int]);
                        }
                    }
                    assert(any_cell_code(views.subrange(1, idx + 1)) == any_cell_code(done));
                }
            },
        }
        idx = idx + 1;
    }
    proof {
        assert(views.subrange(1, secs@.len() as int) =~= views.drop_first());
    }
    if any_cell {
        out.append("\n");
        proof {
            reveal_strlit("\n");
            assert("\n"@ =~= seq!['\n']);
        }
    }
    out.append("\nif __name__ == \"__main__\":\n    app.run()\n");
    proof {
        assert(out@ =~= converted(content@, separator@));
    }
    out
}

/// Scanning a document with no line-anchored separator occurrence from any
/// position yields the one section that started at `start`.
proof fn lemma_split_from_no_boundary(s: Seq<char>, sep: Seq<char>, i: int, start: int)
    requires
        sep.len() >= 1,
        0 <= start <= i <= s.len(),
        forall|m: int| i <= m ==> !boundary_at(s, sep, m),
    ensures
        split_from(s, sep, i, start) == seq![s.subrange(start, s.len() as int)],
    decreases s.len() - i,
{
    if i + sep.len() <= s.len() {
        lemma_split_from_no_boundary(s, sep, i + 1, start);
    }
}

/// A document without a separator line converts to exactly the fixed
/// header, its setup block — present just when the document holds a code
/// line — and the fixed footer, in that order.
pub proof fn lemma_no_separator(content: Seq<char>, sep: Seq<char>)
    requires
        sep.len() >= 1,
        forall|m: int| !boundary_at(content, sep, m),
    ensures
        sections(content, sep) == seq![content],
        converted(content, sep) == header_text() + section_block(setup_header_text(), content)
            + footer_text(),
        !section_is_code(content) ==> converted(content, sep) == header_text() + footer_text(),
{
    lemma_split_from_no_boundary(content, sep, 0, 0);
    assert(content.subrange(0, content.len() as int) =~= content);
    assert(sections(content, sep) =~= seq![content]);
    let secs = sections(content, sep);
    assert(secs[0] == content);
    assert(secs.drop_first() =~= Seq::<Seq<char>>::empty());
    assert(cell_blocks(Seq::<Seq<char>>::empty()) == Seq::<char>::empty());
    assert(!any_cell_code(secs.drop_first()));
    assert(converted(content, sep) =~= header_text() + section_block(
        setup_header_text(),
        content,
    ) + footer_text());
    if !section_is_code(content) {
        assert(section_block(setup_header_text(), content) == Seq::<char>::empty());
        assert(converted(content, sep) =~= header_text() + footer_text());
    }
}

/// A comment-only or blank-only section is dropped from the output
/// entirely: it contributes no block of its own — no header, no lines — and
/// the cell blocks are those of the cell list without it. This also covers
/// the extra blank line: whether one is owed is unchanged by dropping the
/// section.
pub proof fn lemma_trivial_section_dropped(cells: Seq<Seq<char>>, k: int)
    requires
        0 <= k < cells.len(),
        !section_is_code(cells[k]),
    ensures
        section_block(cell_header_text(), cells[k]) == Seq::<char>::empty(),
        section_block(setup_header_text(), cells[k]) == Seq::<char>::empty(),
        cell_blocks(cells) == cell_blocks(cells.remove(k)),
        any_cell_code(cells) == any_cell_code(cells.remove(k)),
    decreases cells.len(),
{
    let removed = cells.remove(k);
    if k == 0 {
        assert(removed =~= cells.drop_first());
        assert(cell_blocks(cells) == section_block(cell_header_text(), cells[0]) + cell_blocks(
            cells.drop_first(),
        ));
        assert(cell_blocks(cells) =~= cell_blocks(removed));
    } else {
        assert(cells.drop_first()[k - 1] == cells[k]);
        lemma_trivial_section_dropped(cells.drop_first(), k - 1);
        assert(removed.drop_first() =~= cells.drop_first().remove(k - 1));
        assert(removed[0] == cells[0]);
        assert(cell_blocks(cells) =~= cell_blocks(removed));
    }
    if any_cell_code(cells) {
        let j = choose|j: int| 0 <= j < cells.len() && section_is_code(cells[j]);
        if j < k {
            assert(removed[j] == cells[j]);
        } else {
            assert(removed[j - 1] == cells[j]);
        }
        assert(any_cell_code(removed));
    }
    if any_cell_code(removed) {
        let j = choose|j: int| 0 <= j < removed.len() && section_is_code(removed[j]);
        if j < k {
            assert(removed[j] == cells[j]);
        } else {
            assert(removed[j] == cells[j + 1]);
        }
        assert(any_cell_code(cells));
    }
}

/// A comment-only or blank-only cell leaves no trace in the converted
/// document: the output is the one the remaining cell list alone produces.
pub proof fn lemma_trivial_cell_dropped_from_output(content: Seq<char>, sep: Seq<char>, k: int)
    requires
        1 <= k < sections(content, sep).len(),
        !section_is_code(sections(content, sep)[k]),
    ensures
        ({
            let secs = sections(content, sep);
            let remaining = secs.drop_first().remove(k - 1);
            converted(content, sep) == header_text() + section_block(
                setup_header_text(),
                secs[0],
            ) + cell_blocks(remaining) + (if any_cell_code(remaining) {
                seq!['\n']
            } else {
                Seq::<char>::empty()
            }) + footer_text()
        }),
{
    let secs = sections(content, sep);
    let cells = secs.drop_first();
    assert(cells[k - 1] == secs[k]);
    lemma_trivial_section_dropped(cells, k - 1);
}

/// The cell blocks split around any one cell: the blocks of the cells
/// before it, its own block, the blocks of the cells after it.
proof fn lemma_cell_blocks_split(cells: Seq<Seq<char>>, k: int)
    requires
        0 <= k < cells.len(),
    ensures
        cell_blocks(cells) == cell_blocks(cells.take(k)) + section_block(
            cell_header_text(),
            cells[k],
        ) + cell_blocks(cells.skip(k + 1)),
    decreases k,
{
    if k == 0 {
        assert(cells.take(0) =~= Seq::<Seq<char>>::empty());
        assert(cell_blocks(Seq::<Seq<char>>::empty()) == Seq::<char>::empty());
        assert(cells.skip(1) =~= cells.drop_first());
        assert(cell_blocks(cells) =~= cell_blocks(cells.take(0)) + section_block(
            cell_header_text(),
            cells[0],
        ) + cell_blocks(cells.skip(1)));
    } else {
        lemma_cell_blocks_split(cells.drop_first(), k - 1);
        assert(cells.drop_first().take(k - 1) =~= cells.take(k).drop_first());
        assert(cells.drop_first().skip(k) =~= cells.skip(k + 1));
        assert(cells.drop_first()[k - 1] == cells[k]);
        assert(cells.take(k)[0] == cells[0]);
        assert(cell_blocks(cells.take(k)) == section_block(cell_header_text(), cells[0])
            + cell_blocks(cells.take(k).drop_first()));
        assert(cell_blocks(cells) =~= cell_blocks(cells.take(k)) + section_block(
            cell_header_text(),
            cells[k],
        ) + cell_blocks(cells.skip(k + 1)));
    }
}

/// An edit confined to one cell changes only that cell's block: both
/// conversions split as a common prefix — header, setup block, the blocks
/// of the cells before the edited one — then the edited cell's own block,
/// then a common suffix — the blocks of the cells after it, the extra blank
/// line owed in both documents alike, and the footer.
pub proof fn lemma_single_cell_edit(c1: Seq<char>, c2: Seq<char>, sep: Seq<char>, k: int)
    requires
        sections(c1, sep).len() == sections(c2, sep).len(),
        1 <= k < sections(c1, sep).len(),
        forall|j: int|
            0 <= j < sections(c1, sep).len() && j != k ==> sections(c1, sep)[j] == sections(
                c2,
                sep,
            )[j],
        section_is_code(sections(c1, sep)[k]) == section_is_code(sections(c2, sep)[k]),
    ensures
        ({
            let secs1 = sections(c1, sep);
            let secs2 = sections(c2, sep);
            let shared_prefix = header_text() + section_block(setup_header_text(), secs1[0])
                + cell_blocks(secs1.drop_first().take(k - 1));
            let shared_suffix = cell_blocks(secs1.drop_first().skip(k)) + (if any_cell_code(
                secs1.drop_first(),
            ) {
                seq!['\n']
            } else {
                Seq::<char>::empty()
            }) + footer_text();
            &&& converted(c1, sep) == shared_prefix + section_block(
                cell_header_text(),
                secs1[k],
            ) + shared_suffix
            &&& converted(c2, sep) == shared_prefix + section_block(
                cell_header_text(),
                secs2[k],
            ) + shared_suffix
        }),
{
    let secs1 = sections(c1, sep);
    let secs2 = sections(c2, sep);
    let cells1 = secs1.drop_first();
    let cells2 = secs2.drop_first();
    assert(forall|j: int| 0 <= j < cells1.len() && j != k - 1 ==> cells1[j] == cells2[j]);
    assert(cells1[k - 1] == secs1[k] && cells2[k - 1] == secs2[k]);
    lemma_cell_blocks_split(cells1, k - 1);
    lemma_cell_blocks_split(cells2, k - 1);
    assert(cells1.take(k - 1) =~= cells2.take(k - 1));
    assert(cells1.skip(k) =~= cells2.skip(k));
    assert forall|j: int|
        0 <= j < cells1.len() implies section_is_code(cells1[j]) == section_is_code(
        cells2[j],
    ) by {
        if j != k - 1 {
            assert(cells1[j] == cells2[j]);
        }
    }
    assert(any_cell_code(cells1) == any_cell_code(cells2));
    assert(secs1[0] == secs2[0]);
    let shared_prefix = header_text() + section_block(setup_header_text(), secs1[0])
        + cell_blocks(cells1.take(k - 1));
    let shared_suffix = cell_blocks(cells1.skip(k)) + (if any_cell_code(cells1) {
        seq!['\n']
    } else {
        Seq::<char>::empty()
    }) + footer_text();
    assert(converted(c1, sep) =~= shared_prefix + section_block(cell_header_text(), secs1[k])
        + shared_suffix);
    assert(converted(c2, sep) =~= shared_prefix + section_block(cell_header_text(), secs2[k])
        + shared_suffix);
}

/// Conversion is a pure function of the document and the separator: the
/// same source converted twice, with no content change, yields the same
/// output both times.
pub proof fn lemma_convert_deterministic(
    content1: Seq<char>,
    sep1: Seq<char>,
    content2: Seq<char>,
    sep2: Seq<char>,
)
    requires
        content1 == content2,
        sep1 == sep2,
    ensures
        converted(content1, sep1) == converted(content2, sep2),
{
}

} // verus!
