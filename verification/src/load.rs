//! Reading one application of the AppImage catalogue: the YAML front
//! matter of its page, where its icon and screenshots lie, the map of its
//! images, and the application record built from them.
use vstd::prelude::*;
use std::collections::HashMap;
use crate::structs::{App, ParsedApp, Url};
use crate::text::{chars_of, opt_text, string_of};

verus! {

broadcast use vstd::std_specs::hash::group_hash_axioms;

/// A character with the Unicode `White_Space` property (what
/// `char::is_whitespace`, and so `str::trim`, goes by).
pub open spec fn is_white_space(c: char) -> bool {
    ||| '\u{9}' <= c <= '\u{d}'
    ||| c == ' '
    ||| c == '\u{85}'
    ||| c == '\u{a0}'
    ||| c == '\u{1680}'
    ||| '\u{2000}' <= c <= '\u{200a}'
    ||| c == '\u{2028}'
    ||| c == '\u{2029}'
    ||| c == '\u{202f}'
    ||| c == '\u{205f}'
    ||| c == '\u{3000}'
}

/// All characters of `s` in `[from, to)` are white space.
pub open spec fn white_between(s: Seq<char>, from: int, to: int) -> bool {
    forall|i: int| from <= i < to ==> is_white_space(#[trigger] s[i])
}

/// The line is white space only (its trimmed text is empty).
pub open spec fn is_blank(line: Seq<char>) -> bool {
    white_between(line, 0, line.len() as int)
}

/// The line is `---` with white space around it (its trimmed text is
/// `---`): a YAML document marker.
pub open spec fn is_marker(line: Seq<char>) -> bool {
    exists|a: int|
        0 <= a && a + 3 <= line.len() && white_between(line, 0, a) && #[trigger] line[a] == '-'
            && line[a + 1] == '-' && line[a + 2] == '-' && white_between(line, a + 3, line.len() as int)
}

/// A line of the page that the front matter keeps.
pub open spec fn keeps(line: Seq<char>) -> bool {
    !is_blank(line) && !is_marker(line)
}

/// The line without the white space at its start.
pub open spec fn trim_start(line: Seq<char>) -> Seq<char>
    decreases line.len(),
{
    if line.len() > 0 && is_white_space(line[0]) {
        trim_start(line.drop_first())
    } else {
        line
    }
}

/// The line without the white space at its end.
pub open spec fn trim_end(line: Seq<char>) -> Seq<char>
    decreases line.len(),
{
    if line.len() > 0 && is_white_space(line.last()) {
        trim_end(line.drop_last())
    } else {
        line
    }
}

/// The line without white space at either end (what `str::trim` gives).
pub open spec fn trimmed(line: Seq<char>) -> Seq<char> {
    trim_end(trim_start(line))
}

proof fn lemma_trim_start_skips(line: Seq<char>) -> (k: int)
    ensures
        0 <= k <= line.len(),
        trim_start(line) == line.skip(k),
        white_between(line, 0, k),
        k < line.len() ==> !is_white_space(line[k]),
    decreases line.len(),
{
    if line.len() > 0 && is_white_space(line[0]) {
        let k = lemma_trim_start_skips(line.drop_first());
        assert(line.drop_first().skip(k) =~= line.skip(k + 1));
        assert forall|i: int| 0 <= i < k + 1 implies is_white_space(#[trigger] line[i]) by {
            if i > 0 {
                assert(line[i] == line.drop_first()[i - 1]);
            }
        }
        if k + 1 < line.len() {
            assert(line[k + 1] == line.drop_first()[k]);
        }
        k + 1
    } else {
        assert(line.skip(0) =~= line);
        0
    }
}

proof fn lemma_trim_end_takes(line: Seq<char>) -> (m: int)
    ensures
        0 <= m <= line.len(),
        trim_end(line) == line.take(m),
        white_between(line, m, line.len() as int),
        m > 0 ==> !is_white_space(line[m - 1]),
    decreases line.len(),
{
    if line.len() > 0 && is_white_space(line.last()) {
        let m = lemma_trim_end_takes(line.drop_last());
        assert(line.drop_last().take(m) =~= line.take(m));
        assert forall|i: int| m <= i < line.len() implies is_white_space(#[trigger] line[i]) by {
            if i < line.len() - 1 {
                assert(line[i] == line.drop_last()[i]);
            }
        }
        if m > 0 {
            assert(line[m - 1] == line.drop_last()[m - 1]);
        }
        m
    } else {
        assert(line.take(line.len() as int) =~= line);
        line.len() as int
    }
}

/// The front matter keeps a line exactly when its trimmed text is neither
/// empty nor `---`: the white space around a line does not decide.
pub proof fn lemma_keeps_by_trim(line: Seq<char>)
    ensures
        keeps(line) == (trimmed(line).len() > 0 && trimmed(line) != seq!['-', '-', '-']),
{
    let k = lemma_trim_start_skips(line);
    let rest = line.skip(k);
    let m = lemma_trim_end_takes(rest);
    let t = trimmed(line);
    assert(t == rest.take(m));
    if k == line.len() {
        assert(is_blank(line));
        assert(t.len() == 0);
    } else {
        assert(!is_blank(line));
        assert(rest[0] == line[k]);
        assert(m > 0) by {
            if m == 0 {
                assert(is_white_space(rest[0]));
            }
        }
        assert forall|i: int| k + m <= i < line.len() implies is_white_space(#[trigger] line[i]) by {
            assert(line[i] == rest[i - k]);
        }
        if t == seq!['-', '-', '-'] {
            assert(m == 3);
            assert(line[k] == t[0] && line[k + 1] == t[1] && line[k + 2] == t[2]);
            assert(is_marker(line));
        }
        if is_marker(line) {
            let a = choose|a: int|
                0 <= a && a + 3 <= line.len() && white_between(line, 0, a) && #[trigger] line[a]
                    == '-' && line[a + 1] == '-' && line[a + 2] == '-' && white_between(
                    line,
                    a + 3,
                    line.len() as int,
                );
            assert(a == k) by {
                if a < k {
                    assert(is_white_space(line[a]));
                } else if a > k {
                    assert(is_white_space(line[k]));
                }
            }
            assert(rest[m - 1] == line[k + m - 1]);
            assert(k + m == a + 3) by {
                if k + m > a + 3 {
                    assert(is_white_space(line[k + m - 1]));
                } else if k + m < a + 3 {
                    assert(is_white_space(line[k + m]));
                }
            }
            assert(t =~= seq!['-', '-', '-']);
        }
    }
}

/// White space at the start or at the end of a line does not change
/// whether the front matter keeps it: an indented line is kept as its
/// unindented text would be.
pub proof fn lemma_keeps_ignores_padding(line: Seq<char>, c: char)
    requires
        is_white_space(c),
    ensures
        keeps(seq![c] + line) == keeps(line),
        keeps(line.push(c)) == keeps(line),
{
    lemma_blank_front(line, c);
    lemma_blank_back(line, c);
    lemma_marker_front(line, c);
    lemma_marker_back(line, c);
}

proof fn lemma_blank_front(line: Seq<char>, c: char)
    requires
        is_white_space(c),
    ensures
        is_blank(seq![c] + line) == is_blank(line),
{
    let front = seq![c] + line;
    if is_blank(line) {
        assert forall|i: int| 0 <= i < front.len() implies is_white_space(#[trigger] front[i]) by {
            if i > 0 {
                assert(front[i] == line[i - 1]);
            }
        }
    }
    if is_blank(front) {
        assert forall|i: int| 0 <= i < line.len() implies is_white_space(#[trigger] line[i]) by {
            assert(front[i + 1] == line[i]);
        }
    }
}

proof fn lemma_blank_back(line: Seq<char>, c: char)
    requires
        is_white_space(c),
    ensures
        is_blank(line.push(c)) == is_blank(line),
{
    let back = line.push(c);
    if is_blank(line) {
        assert forall|i: int| 0 <= i < back.len() implies is_white_space(#[trigger] back[i]) by {
            if i < line.len() {
                assert(back[i] == line[i]);
            }
        }
    }
    if is_blank(back) {
        assert forall|i: int| 0 <= i < line.len() implies is_white_space(#[trigger] line[i]) by {
            assert(back[i] == line[i]);
        }
    }
}

proof fn lemma_marker_front(line: Seq<char>, c: char)
    requires
        is_white_space(c),
    ensures
        is_marker(seq![c] + line) == is_marker(line),
{
    let front = seq![c] + line;
    if is_marker(line) {
        let a = choose|a: int|
            0 <= a && a + 3 <= line.len() && white_between(line, 0, a) && #[trigger] line[a]
                == '-' && line[a + 1] == '-' && line[a + 2] == '-' && white_between(
                line,
                a + 3,
                line.len() as int,
            );
        assert(front[a + 1] == '-' && front[a + 2] == '-' && front[a + 3] == '-');
        assert forall|i: int| 0 <= i < a + 1 implies is_white_space(#[trigger] front[i]) by {
            if i > 0 {
                assert(front[i] == line[i - 1]);
            }
        }
        assert forall|i: int| a + 4 <= i < front.len() implies is_white_space(#[trigger] front[i]) by {
            assert(front[i] == line[i - 1]);
        }
    }
    if is_marker(front) {
        let a = choose|a: int|
            0 <= a && a + 3 <= front.len() && white_between(front, 0, a) && #[trigger] front[a]
                == '-' && front[a + 1] == '-' && front[a + 2] == '-' && white_between(
                front,
                a + 3,
                front.len() as int,
            );
        assert(a >= 1) by {
            if a == 0 {
                assert(front[0] == c);
            }
        }
        assert(line[a - 1] == '-' && line[a] == '-' && line[a + 1] == '-');
        assert forall|i: int| 0 <= i < a - 1 implies is_white_space(#[trigger] line[i]) by {
            assert(front[i + 1] == line[i]);
        }
        assert forall|i: int| a + 2 <= i < line.len() implies is_white_space(#[trigger] line[i]) by {
            assert(front[i + 1] == line[i]);
        }
    }
}

proof fn lemma_marker_back(line: Seq<char>, c: char)
    requires
        is_white_space(c),
    ensures
        is_marker(line.push(c)) == is_marker(line),
{
    let back = line.push(c);
    if is_marker(line) {
        let a = choose|a: int|
            0 <= a && a + 3 <= line.len() && white_between(line, 0, a) && #[trigger] line[a]
                == '-' && line[a + 1] == '-' && line[a + 2] == '-' && white_between(
                line,
                a + 3,
                line.len() as int,
            );
        assert(back[a] == '-' && back[a + 1] == '-' && back[a + 2] == '-');
        assert forall|i: int| 0 <= i < a implies is_white_space(#[trigger] back[i]) by {
            assert(back[i] == line[i]);
        }
        assert forall|i: int| a + 3 <= i < back.len() implies is_white_space(#[trigger] back[i]) by {
            if i < line.len() {
                assert(back[i] == line[i]);
            }
        }
    }
    if is_marker(back) {
        let a = choose|a: int|
            0 <= a && a + 3 <= back.len() && white_between(back, 0, a) && #[trigger] back[a]
                == '-' && back[a + 1] == '-' && back[a + 2] == '-' && white_between(
                back,
                a + 3,
                back.len() as int,
            );
        assert(a + 3 <= line.len()) by {
            if a + 3 > line.len() {
                assert(back[line.len() as int] == c);
            }
        }
        assert(line[a] == '-' && line[a + 1] == '-' && line[a + 2] == '-');
        assert forall|i: int| 0 <= i < a implies is_white_space(#[trigger] line[i]) by {
            assert(back[i] == line[i]);
        }
        assert forall|i: int| a + 3 <= i < line.len() implies is_white_space(#[trigger] line[i]) by {
            assert(back[i] == line[i]);
        }
    }
}

/// The line without one `\r` at its end, if it has one.
pub open spec fn strip_cr(line: Seq<char>) -> Seq<char> {
    if line.len() > 0 && line.last() == '\r' {
        line.drop_last()
    } else {
        line
    }
}

/// The lines of `rest`, the first of them continuing `cur`: a line ends at
/// `\n`, and a `\r` right before that `\n` is dropped; a last line without
/// `\n` is kept as it is, and no empty line follows a final `\n` (the lines
/// that `str::lines` yields).
pub open spec fn lines_from(cur: Seq<char>, rest: Seq<char>) -> Seq<Seq<char>>
    decreases rest.len(),
{
    if rest.len() == 0 {
        if cur.len() == 0 {
            seq![]
        } else {
            seq![cur]
        }
    } else if rest[0] == '\n' {
        seq![strip_cr(cur)] + lines_from(seq![], rest.drop_first())
    } else {
        lines_from(cur.push(rest[0]), rest.drop_first())
    }
}

/// The lines of a text.
pub open spec fn lines_of(text: Seq<char>) -> Seq<Seq<char>> {
    lines_from(seq![], text)
}

/// Lines joined with `\n` between them.
pub open spec fn join_lines(lines: Seq<Seq<char>>) -> Seq<char>
    decreases lines.len(),
{
    if lines.len() == 0 {
        seq![]
    } else if lines.len() == 1 {
        lines[0]
    } else {
        join_lines(lines.drop_last()) + seq!['\n'] + lines.last()
    }
}

proof fn lemma_join_lines_prepend(x: Seq<char>, ls: Seq<Seq<char>>)
    requires
        ls.len() > 0,
    ensures
        join_lines(seq![x] + ls) == x + seq!['\n'] + join_lines(ls),
    decreases ls.len(),
{
    let all = seq![x] + ls;
    if ls.len() == 1 {
        assert(all.drop_last() =~= seq![x]);
        assert(join_lines(seq![x]) == x);
        assert(join_lines(ls) == ls[0]);
    } else {
        lemma_join_lines_prepend(x, ls.drop_last());
        assert(all.drop_last() =~= seq![x] + ls.drop_last());
        assert(all.last() == ls.last());
    }
}

proof fn lemma_lines_from_join(cur: Seq<char>, rest: Seq<char>)
    requires
        !cur.contains('\r'),
        !rest.contains('\r'),
        rest.len() == 0 || rest.last() != '\n',
    ensures
        join_lines(lines_from(cur, rest)) == cur + rest,
        cur.len() + rest.len() > 0 ==> lines_from(cur, rest).len() > 0,
    decreases rest.len(),
{
    if rest.len() == 0 {
        assert(cur + rest =~= cur);
    } else {
        let tail = rest.drop_first();
        assert forall|j: int| 0 <= j < tail.len() implies tail[j] != '\r' by {
            assert(tail[j] == rest[j + 1]);
        }
        if tail.len() > 0 {
            assert(tail.last() == rest.last());
        }
        if rest[0] == '\n' {
            assert(tail.len() > 0);
            lemma_lines_from_join(seq![], tail);
            assert(!(cur.len() > 0 && cur.last() == '\r')) by {
                if cur.len() > 0 && cur.last() == '\r' {
                    assert(cur.contains('\r'));
                }
            }
            assert(strip_cr(cur) == cur);
            lemma_join_lines_prepend(cur, lines_from(seq![], tail));
            assert(seq![] + tail =~= tail);
            assert(cur + rest =~= cur + seq!['\n'] + tail);
        } else {
            let next = cur.push(rest[0]);
            assert(!next.contains('\r')) by {
                if next.contains('\r') {
                    let j = choose|j: int| 0 <= j < next.len() && next[j] == '\r';
                    if j < cur.len() {
                        assert(cur[j] == '\r');
                    } else {
                        assert(rest[0] == '\r');
                    }
                }
            }
            lemma_lines_from_join(next, tail);
            assert(next + tail =~= cur + rest);
        }
    }
}

proof fn lemma_lines_from_absorb(cur: Seq<char>, l: Seq<char>, rest: Seq<char>)
    requires
        !l.contains('\n'),
    ensures
        lines_from(cur, l + rest) == lines_from(cur + l, rest),
    decreases l.len(),
{
    if l.len() > 0 {
        assert((l + rest)[0] == l[0]);
        assert((l + rest).drop_first() =~= l.drop_first() + rest);
        assert(!l.drop_first().contains('\n')) by {
            if l.drop_first().contains('\n') {
                let j = choose|j: int| 0 <= j < l.drop_first().len() && l.drop_first()[j] == '\n';
                assert(l[j + 1] == '\n');
            }
        }
        assert(l[0] != '\n') by {
            if l[0] == '\n' {
                assert(l.contains('\n'));
            }
        }
        lemma_lines_from_absorb(cur.push(l[0]), l.drop_first(), rest);
        assert(cur.push(l[0]) + l.drop_first() =~= cur + l);
    } else {
        assert(l + rest =~= rest);
        assert(cur + l =~= cur);
    }
}

/// How a text splits into lines: a line ended by `\n` comes first,
/// without the `\r` right before that `\n` if there is one, followed by the
/// lines of the rest; a last line without `\n` is taken as it is, `\r`
/// included.
pub proof fn lemma_lines_split(l: Seq<char>, rest: Seq<char>)
    requires
        !l.contains('\n'),
    ensures
        lines_of(l + seq!['\n'] + rest) == seq![strip_cr(l)] + lines_of(rest),
        lines_of(l + seq!['\r', '\n'] + rest) == seq![l] + lines_of(rest),
        l.len() > 0 ==> lines_of(l) == seq![l],
{
    lemma_lines_from_absorb(seq![], l, seq!['\n'] + rest);
    assert(l + seq!['\n'] + rest =~= l + (seq!['\n'] + rest));
    assert(Seq::<char>::empty() + l =~= l);
    assert((seq!['\n'] + rest)[0] == '\n');
    assert((seq!['\n'] + rest).drop_first() =~= rest);
    let lr = l.push('\r');
    assert(!lr.contains('\n')) by {
        if lr.contains('\n') {
            let j = choose|j: int| 0 <= j < lr.len() && lr[j] == '\n';
            assert(l[j] == '\n');
        }
    }
    lemma_lines_from_absorb(seq![], lr, seq!['\n'] + rest);
    assert(l + seq!['\r', '\n'] + rest =~= lr + (seq!['\n'] + rest));
    assert(Seq::<char>::empty() + lr =~= lr);
    assert(lr.drop_last() =~= l);
    lemma_lines_from_absorb(seq![], l, seq![]);
    assert(l + Seq::<char>::empty() =~= l);
}

/// Splitting a text into lines and joining them back with `\n` gives the
/// text again, when it holds no `\r` and does not end in `\n`.
pub proof fn lemma_lines_join_back(text: Seq<char>)
    requires
        !text.contains('\r'),
        text.len() == 0 || text.last() != '\n',
    ensures
        join_lines(lines_of(text)) == text,
{
    lemma_lines_from_join(seq![], text);
    assert(seq![] + text =~= text);
}

/// Each line holds no `\n`.
pub proof fn lemma_lines_have_no_line_feed(text: Seq<char>)
    ensures
        forall|i: int| 0 <= i < lines_of(text).len() ==> !(#[trigger] lines_of(text)[i]).contains('\n'),
{
    lemma_lines_from_no_line_feed(seq![], text);
}

proof fn lemma_lines_from_no_line_feed(cur: Seq<char>, rest: Seq<char>)
    requires
        !cur.contains('\n'),
    ensures
        forall|i: int| 0 <= i < lines_from(cur, rest).len() ==> !(#[trigger] lines_from(cur, rest)[i]).contains('\n'),
    decreases rest.len(),
{
    if rest.len() > 0 {
        let tail = rest.drop_first();
        if rest[0] == '\n' {
            lemma_lines_from_no_line_feed(seq![], tail);
            let l = strip_cr(cur);
            assert(!l.contains('\n')) by {
                if l.contains('\n') {
                    let j = choose|j: int| 0 <= j < l.len() && l[j] == '\n';
                    assert(cur[j] == '\n');
                }
            }
            let all = lines_from(cur, rest);
            assert(all == seq![l] + lines_from(seq![], tail));
            assert forall|i: int| 0 <= i < all.len() implies !(#[trigger] all[i]).contains('\n') by {
                if i > 0 {
                    assert(all[i] == lines_from(seq![], tail)[i - 1]);
                }
            }
        } else {
            let next = cur.push(rest[0]);
            assert(!next.contains('\n')) by {
                if next.contains('\n') {
                    let j = choose|j: int| 0 <= j < next.len() && next[j] == '\n';
                    if j < cur.len() {
                        assert(cur[j] == '\n');
                    }
                }
            }
            lemma_lines_from_no_line_feed(next, tail);
            assert(lines_from(cur, rest) == lines_from(next, tail));
        }
    } else if cur.len() > 0 {
        assert(lines_from(cur, rest) == seq![cur]);
    }
}

/// The YAML of an application page: its lines but the blank ones and the
/// `---` markers, joined with `\n`.
pub open spec fn front_matter_of(page: Seq<char>) -> Seq<char> {
    join_lines(kept(lines_of(page)))
}

/// The lines that the front matter keeps, in order.
pub open spec fn kept(lines: Seq<Seq<char>>) -> Seq<Seq<char>> {
    lines.filter(|l: Seq<char>| keeps(l))
}

proof fn lemma_kept_step(lines: Seq<Seq<char>>, i: int)
    requires
        0 <= i < lines.len(),
    ensures
        kept(lines.take(i + 1)) == if keeps(lines[i]) {
            kept(lines.take(i)).push(lines[i])
        } else {
            kept(lines.take(i))
        },
{
    reveal_with_fuel(Seq::filter, 1);
    assert(lines.take(i + 1).drop_last() =~= lines.take(i));
}

/// The kept lines: none of no lines, and those of a list extended by one
/// line are the list's kept lines followed by that line when the front
/// matter keeps it.
pub proof fn lemma_kept_extends(lines: Seq<Seq<char>>, line: Seq<char>)
    ensures
        kept(Seq::<Seq<char>>::empty()) == Seq::<Seq<char>>::empty(),
        kept(lines.push(line)) == if keeps(line) {
            kept(lines).push(line)
        } else {
            kept(lines)
        },
{
    reveal_with_fuel(Seq::filter, 1);
    assert(lines.push(line).drop_last() =~= lines);
}

proof fn lemma_kept_all(lines: Seq<Seq<char>>)
    requires
        forall|i: int| 0 <= i < lines.len() ==> keeps(#[trigger] lines[i]),
    ensures
        kept(lines) == lines,
    decreases lines.len(),
{
    if lines.len() == 0 {
        lemma_kept_extends(lines, seq![]);
        assert(lines =~= Seq::<Seq<char>>::empty());
    } else {
        let front = lines.drop_last();
        assert forall|i: int| 0 <= i < front.len() implies keeps(#[trigger] front[i]) by {
            assert(front[i] == lines[i]);
        }
        lemma_kept_all(front);
        lemma_kept_extends(front, lines.last());
        assert(front.push(lines.last()) =~= lines);
    }
}

/// A page without `\r`, not ending in `\n`, whose lines are all kept, is
/// its own front matter: the front matter drops nothing else and changes
/// no line.
pub proof fn lemma_front_matter_of_clean_page(page: Seq<char>)
    requires
        !page.contains('\r'),
        page.len() == 0 || page.last() != '\n',
        forall|i: int| 0 <= i < lines_of(page).len() ==> keeps(#[trigger] lines_of(page)[i]),
    ensures
        front_matter_of(page) == page,
{
    lemma_kept_all(lines_of(page));
    lemma_lines_join_back(page);
}

pub open spec fn views(lines: Seq<Vec<char>>) -> Seq<Seq<char>> {
    lines.map_values(|l: Vec<char>| l@)
}

fn is_white_space_exec(c: char) -> (r: bool)
    ensures
        r == is_white_space(c),
{
    ('\u{9}' <= c && c <= '\u{d}') || c == ' ' || c == '\u{85}' || c == '\u{a0}' || c == '\u{1680}'
        || ('\u{2000}' <= c && c <= '\u{200a}') || c == '\u{2028}' || c == '\u{2029}' || c
        == '\u{202f}' || c == '\u{205f}' || c == '\u{3000}'
}

/// Whether the front matter keeps the line.
pub fn keeps_line(line: &Vec<char>) -> (r: bool)
    ensures
        r == keeps(line@),
{
    let n = line.len();
    let mut start: usize = 0;
    while start < n && is_white_space_exec(line[start])
        invariant
            n == line@.len(),
            start <= n,
            white_between(line@, 0, start as int),
        decreases n - start,
    {
        start = start + 1;
    }
    if start == n {
        return false;
    }
    let mut end: usize = n;
    while end > start && is_white_space_exec(line[end - 1])
        invariant
            n == line@.len(),
            start < end <= n,
            !is_white_space(line@[start as int]),
            white_between(line@, end as int, n as int),
        decreases end,
    {
        end = end - 1;
    }
    assert(!is_blank(line@)) by {
        assert(!is_white_space(line@[start as int]));
    }
    let marker = end - start == 3 && line[start] == '-' && line[start + 1] == '-' && line[start + 2]
        == '-';
    if marker {
        assert(is_marker(line@)) by {
            assert(line@[start as int] == '-');
        }
    } else {
        assert(!is_marker(line@)) by {
            if is_marker(line@) {
                let a = choose|a: int|
                    0 <= a && a + 3 <= line@.len() && white_between(line@, 0, a) && #[trigger] line@[a]
                        == '-' && line@[a + 1] == '-' && line@[a + 2] == '-' && white_between(
                        line@,
                        a + 3,
                        line@.len() as int,
                    );
                assert(!is_white_space(line@[start as int]));
                assert(!is_white_space(line@[a]));
                assert(a == start) by {
                    if a < start {
                        assert(is_white_space(line@[a]));
                    } else if a > start {
                        assert(is_white_space(line@[start as int]));
                    }
                }
                assert(!is_white_space(line@[end - 1]));
                assert(end - 1 == a + 2) by {
                    if end - 1 > a + 2 {
                        assert(is_white_space(line@[end - 1]));
                    } else if end - 1 < a + 2 {
                        assert(is_white_space(line@[a + 2]));
                    }
                }
            }
        }
    }
    !marker
}

/// Splits a text into its lines.
pub fn split_lines(text: &Vec<char>) -> (lines: Vec<Vec<char>>)
    ensures
        views(lines@) == lines_of(text@),
{
    let mut lines: Vec<Vec<char>> = Vec::new();
    let mut cur: Vec<char> = Vec::new();
    let mut i: usize = 0;
    assert(text@.skip(0) == text@);
    while i < text.len()
        invariant
            i <= text@.len(),
            lines_of(text@) == views(lines@) + lines_from(cur@, text@.skip(i as int)),
        decreases text@.len() - i,
    {
        let c = text[i];
        let ghost rest = text@.skip(i as int);
        assert(rest[0] == c);
        assert(rest.drop_first() == text@.skip(i + 1));
        if c == '\n' {
            let ghost before = cur@;
            let len = cur.len();
            if len > 0 && cur[len - 1] == '\r' {
                cur.pop();
            }
            assert(cur@ == strip_cr(before));
            let ghost old_lines = lines@;
            let mut done: Vec<char> = Vec::new();
            std::mem::swap(&mut done, &mut cur);
            lines.push(done);
            assert(views(lines@) =~= views(old_lines) + seq![strip_cr(before)]);
        } else {
            cur.push(c);
        }
        i = i + 1;
    }
    if cur.len() > 0 {
        lines.push(cur);
    }
    assert(views(lines@) == lines_of(text@)) by {
        assert(views(lines@) =~= lines_of(text@));
    }
    lines
}

/// The YAML of an application page: drops the blank lines and the `---`
/// markers, and joins the rest with `\n`.
pub fn front_matter(page: &str) -> (yaml: String)
    ensures
        yaml@ == front_matter_of(page@),
{
    let text = chars_of(page);
    let lines = split_lines(&text);
    let ghost all = views(lines@);
    let mut out: Vec<char> = Vec::new();
    let mut any = false;
    let n = lines.len();
    for line in it: lines.into_iter()
        invariant
            n == all.len(),
            it.seq() == lines@,
            all == views(lines@),
            out@ == join_lines(kept(all.take(it.index() as int))),
            any == (kept(all.take(it.index() as int)).len() > 0),
    {
        let ghost i = it.index() as int;
        let mut line = line;
        let ghost l = line@;
        assert(l == all[i]);
        proof {
            lemma_kept_step(all, i);
        }
        if keeps_line(&line) {
            let ghost before = kept(all.take(i));
            if any {
                out.push('\n');
                out.append(&mut line);
                assert(before.push(l).drop_last() == before);
            } else {
                out.append(&mut line);
                assert(before.len() == 0);
                assert(out@ =~= l);
            }
            any = true;
        }
    }
    assert(all.take(n as int) == all);
    string_of(&out)
}

/// The screenshots that could be read, in page order.
pub open spec fn readable(shots: Seq<Option<Vec<u8>>>) -> Seq<Vec<u8>> {
    shots.filter_map(|o: Option<Vec<u8>>| o)
}

/// The readable screenshots: none of no screenshots, and those of a list
/// extended by one are the list's readable ones followed by the new one
/// when it could be read.
pub proof fn lemma_readable_extends(shots: Seq<Option<Vec<u8>>>, shot: Option<Vec<u8>>)
    ensures
        readable(Seq::<Option<Vec<u8>>>::empty()) == Seq::<Vec<u8>>::empty(),
        readable(shots.push(shot)) == match shot {
            Some(b) => readable(shots).push(b),
            None => readable(shots),
        },
{
    assert(shots.push(shot).drop_last() =~= shots);
    assert(readable(Seq::<Option<Vec<u8>>>::empty()) =~= Seq::<Vec<u8>>::empty());
    if let Some(b) = shot {
        assert(readable(shots) + seq![b] =~= readable(shots).push(b));
    }
}

/// The images of an application: the icon under 0, and the first five
/// screenshots under 1 to 5.
pub open spec fn image_map(icon: Vec<u8>, shots: Seq<Vec<u8>>) -> Map<u8, Vec<u8>> {
    Map::new(
        |k: u8| k == 0 || (1 <= k <= 5 && k <= shots.len()),
        |k: u8|
            if k == 0 {
                icon
            } else {
                shots[k - 1]
            },
    )
}

/// Builds the image map of an application from its icon and from the
/// screenshots of its page, each as read (`None` where it could not be
/// read); without a screenshot list, only the icon.
pub fn get_screenshots(icon: Vec<u8>, ss: Option<Vec<Option<Vec<u8>>>>) -> (images: HashMap<
    u8,
    Vec<u8>,
>)
    ensures
        images@ == image_map(
            icon,
            match ss {
                Some(shots) => readable(shots@),
                None => seq![],
            },
        ),
{
    let ghost icon_bytes = icon;
    let mut images: HashMap<u8, Vec<u8>> = HashMap::new();
    images.insert(0, icon);
    assert(images@ =~= image_map(icon_bytes, seq![]));
    let shots = match ss {
        Some(shots) => shots,
        None => {
            return images;
        },
    };
    let ghost all = shots@;
    let mut count: u8 = 0;
    for shot in it: shots.into_iter()
        invariant
            it.seq() == all,
            count as int == if readable(all.take(it.index() as int)).len() < 5 {
                readable(all.take(it.index() as int)).len() as int
            } else {
                5
            },
            images@ == image_map(icon_bytes, readable(all.take(it.index() as int))),
    {
        let ghost i = it.index() as int;
        let ghost before = readable(all.take(i));
        assert(all.take(i + 1).drop_last() =~= all.take(i));
        assert(all.take(i + 1).last() == shot);
        match shot {
            Some(bytes) => {
                let ghost after = before + seq![bytes];
                assert(readable(all.take(i + 1)) == after);
                if count < 5 {
                    images.insert(count + 1, bytes);
                    assert(images@ =~= image_map(icon_bytes, after));
                    count = count + 1;
                } else {
                    assert(images@ =~= image_map(icon_bytes, after));
                }
            },
            None => {
                assert(readable(all.take(i + 1)) == before);
            },
        }
    }
    assert(all.take(all.len() as int) == all);
    images
}

/// The icon always stands under id 0, and only the first five screenshots
/// follow it, under ids 1 to 5.
pub proof fn lemma_image_ids(icon: Vec<u8>, shots: Seq<Vec<u8>>)
    ensures
        image_map(icon, shots).contains_key(0),
        image_map(icon, shots)[0] == icon,
        forall|k: u8| #[trigger] image_map(icon, shots).contains_key(k) ==> k <= 5,
        forall|k: u8|
            1 <= k <= 5 && k <= shots.len() ==> #[trigger] image_map(icon, shots).contains_key(k)
                && image_map(icon, shots)[k] == shots[k - 1],
{
}

/// Where the images named on application pages lie.
pub open spec fn database_dir() -> Seq<char> {
    "./appimage.github.io/database/"@
}

/// The icon of an application: the first one of its icons that is a PNG
/// file.
pub open spec fn first_png(icons: Seq<String>) -> Option<Seq<char>>
    decreases icons.len(),
{
    if icons.len() == 0 {
        None
    } else if icons[0]@.len() >= 4 && icons[0]@.skip(icons[0]@.len() - 4) == ".png"@ {
        Some(icons[0]@)
    } else {
        first_png(icons.drop_first())
    }
}

/// The icon is the lowest-indexed icon name that ends in `.png`: whatever
/// its index, a PNG name with no PNG name before it is the one taken.
pub proof fn lemma_first_png_is_lowest(icons: Seq<String>, i: int)
    requires
        0 <= i < icons.len(),
        icons[i]@.len() >= 4,
        icons[i]@.skip(icons[i]@.len() - 4) == seq!['.', 'p', 'n', 'g'],
        forall|j: int|
            0 <= j < i ==> !(#[trigger] icons[j]@.len() >= 4 && icons[j]@.skip(icons[j]@.len() - 4)
                == seq!['.', 'p', 'n', 'g']),
    ensures
        first_png(icons) == Some(icons[i]@),
    decreases i,
{
    reveal_strlit(".png");
    assert(".png"@ =~= seq!['.', 'p', 'n', 'g']);
    if i > 0 {
        let rest = icons.drop_first();
        assert forall|j: int|
            0 <= j < i - 1 implies !(#[trigger] rest[j]@.len() >= 4 && rest[j]@.skip(rest[j]@.len() - 4)
                == seq!['.', 'p', 'n', 'g']) by {
            assert(rest[j] == icons[j + 1]);
        }
        lemma_first_png_is_lowest(rest, i - 1);
    }
}

/// Without an icon name ending in `.png` there is no icon.
pub proof fn lemma_first_png_none(icons: Seq<String>)
    requires
        forall|j: int|
            0 <= j < icons.len() ==> !(#[trigger] icons[j]@.len() >= 4 && icons[j]@.skip(
                icons[j]@.len() - 4,
            ) == seq!['.', 'p', 'n', 'g']),
    ensures
        first_png(icons) is None,
    decreases icons.len(),
{
    reveal_strlit(".png");
    assert(".png"@ =~= seq!['.', 'p', 'n', 'g']);
    if icons.len() > 0 {
        let rest = icons.drop_first();
        assert forall|j: int|
            0 <= j < rest.len() implies !(#[trigger] rest[j]@.len() >= 4 && rest[j]@.skip(
                rest[j]@.len() - 4,
            ) == seq!['.', 'p', 'n', 'g']) by {
            assert(rest[j] == icons[j + 1]);
        }
        lemma_first_png_none(rest);
    }
}

/// A file of the image database.
pub fn database_file(name: &str) -> (path: String)
    ensures
        path@ == database_dir() + name@,
{
    let mut path = String::new();
    path.append("./appimage.github.io/database/");
    path.append(name);
    path
}

fn is_png(name: &str) -> (r: bool)
    ensures
        r == (name@.len() >= 4 && name@.skip(name@.len() - 4) == ".png"@),
{
    let chars = chars_of(name);
    let png = chars_of(".png");
    proof {
        reveal_strlit(".png");
    }
    let n = chars.len();
    if n < 4 {
        return false;
    }
    let mut j: usize = 0;
    while j < 4
        invariant
            n == chars@.len(),
            chars@ == name@,
            n >= 4,
            png@ == ".png"@,
            png@.len() == 4,
            j <= 4,
            forall|k: int| 0 <= k < j ==> chars@[n - 4 + k] == png@[k],
        decreases 4 - j,
    {
        if chars[n - 4 + j] != png[j] {
            assert(chars@.skip(n - 4)[j as int] != png@[j as int]);
            return false;
        }
        j = j + 1;
    }
    assert(chars@.skip(n - 4) =~= png@);
    true
}

/// Where the icon of an application lies: the first PNG among its icons,
/// in the image database; none without a PNG icon.
pub fn icon_path(icons: &Option<Vec<String>>) -> (path: Option<String>)
    ensures
        opt_text(path) == match icons {
            Some(list) => match first_png(list@) {
                Some(name) => Some(database_dir() + name),
                None => None,
            },
            None => None,
        },
{
    proof {
        reveal_strlit(".png");
    }
    let list = match icons {
        Some(list) => list,
        None => {
            return None;
        },
    };
    assert(*icons == Some(*list));
    let mut i: usize = 0;
    assert(list@.skip(0) == list@);
    while i < list.len()
        invariant
            *icons == Some(*list),
            i <= list@.len(),
            first_png(list@) == first_png(list@.skip(i as int)),
        decreases list@.len() - i,
    {
        assert(list@.skip(i as int)[0] == list@[i as int]);
        if is_png(list[i].as_str()) {
            let path = database_file(list[i].as_str());
            assert(first_png(list@.skip(i as int)) == Some(list@[i as int]@));
            return Some(path);
        }
        assert(list@.skip(i as int).drop_first() == list@.skip(i + 1));
        i = i + 1;
    }
    assert(list@.skip(i as int).len() == 0);
    None
}

/// Where the screenshots of an application lie, in page order.
pub fn screenshot_paths(shots: &Option<Vec<String>>) -> (paths: Option<Vec<String>>)
    ensures
        match shots {
            Some(list) => paths is Some && paths->0@.len() == list@.len() && forall|i: int|
                0 <= i < list@.len() ==> #[trigger] paths->0@[i]@ == database_dir() + list@[i]@,
            None => paths is None,
        },
{
    let list = match shots {
        Some(list) => list,
        None => {
            return None;
        },
    };
    let mut paths: Vec<String> = Vec::new();
    let mut i: usize = 0;
    while i < list.len()
        invariant
            i <= list@.len(),
            paths@.len() == i,
            forall|k: int| 0 <= k < i ==> #[trigger] paths@[k]@ == database_dir() + list@[k]@,
        decreases list@.len() - i,
    {
        paths.push(database_file(list[i].as_str()));
        i = i + 1;
    }
    Some(paths)
}

/// Whether a catalogue entry is hidden: its name begins with `.`.
pub fn is_hidden(name: &str) -> (r: bool)
    ensures
        r == (name@.len() > 0 && name@[0] == '.'),
{
    let chars = chars_of(name);
    chars.len() > 0 && chars[0] == '.'
}

/// The application record of a catalogue page: its name, description and
/// license, its images and its download source; none when the page lacks a
/// description or a license. Authors and screenshot names are left empty.
pub fn assemble_app(name: String, meta: App, resources: HashMap<u8, Vec<u8>>, url: Url) -> (app:
    Option<ParsedApp>)
    ensures
        match (meta.description, meta.license) {
            (Some(description), Some(license)) => app matches Some(a) && a.name == name
                && a.description == description && a.license == license && a.authors@.len() == 0
                && a.screenshots@.len() == 0 && a.resources == resources && a.url == url,
            _ => app is None,
        },
{
    let description = match meta.description {
        Some(d) => d,
        None => {
            return None;
        },
    };
    let license = match meta.license {
        Some(l) => l,
        None => {
            return None;
        },
    };
    Some(
        ParsedApp {
            name,
            description,
            license,
            authors: Vec::new(),
            screenshots: Vec::new(),
            resources,
            url,
        },
    )
}

} // verus!
