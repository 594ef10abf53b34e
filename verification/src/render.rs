//! Rendering of reply content for the terminal.
//!
//! In default display mode every line that opens with a code-fence marker
//! is dropped before printing, so that the output can be inserted directly;
//! in verbose display mode the content is shown unchanged. The history is
//! never filtered: it keeps the content as received.

use vstd::prelude::*;
use crate::text::chars_of;
use crate::text::string_from_chars;

verus! {

/// One trailing carriage return removed, as the line splitter drops it.
pub open spec fn strip_cr(l: Seq<char>) -> Seq<char> {
    if l.len() > 0 && l.last() == '\r' {
        l.drop_last()
    } else {
        l
    }
}

/// The lines of `s` from position `i` on, with `cur` the part of the
/// current line already read. A final line terminator ends the last line
/// without opening an empty one.
pub open spec fn lines_from(s: Seq<char>, i: int, cur: Seq<char>) -> Seq<Seq<char>>
    decreases s.len() - i,
{
    if i < 0 || i >= s.len() {
        seq![strip_cr(cur)]
    } else if s[i] == '\n' {
        if i == s.len() - 1 {
            seq![strip_cr(cur)]
        } else {
            seq![strip_cr(cur)] + lines_from(s, i + 1, Seq::empty())
        }
    } else {
        lines_from(s, i + 1, cur.push(s[i]))
    }
}

/// The lines of a text: split at `'\n'`, one trailing `'\r'` per line
/// dropped, no empty line after a final terminator, and no line at all in
/// empty text.
pub open spec fn lines_of(s: Seq<char>) -> Seq<Seq<char>> {
    if s.len() == 0 {
        Seq::empty()
    } else {
        lines_from(s, 0, Seq::empty())
    }
}

/// Whether a line begins with a code-fence marker.
pub open spec fn is_fence(l: Seq<char>) -> bool {
    l.len() >= 3 && l[0] == '`' && l[1] == '`' && l[2] == '`'
}

/// The lines that survive filtering: everything but fence-opening lines.
pub open spec fn keep_lines(ls: Seq<Seq<char>>) -> Seq<Seq<char>>
    decreases ls.len(),
{
    if ls.len() == 0 {
        Seq::empty()
    } else if is_fence(ls.last()) {
        keep_lines(ls.drop_last())
    } else {
        keep_lines(ls.drop_last()).push(ls.last())
    }
}

/// Lines joined back with single line feeds.
pub open spec fn join_nl(ls: Seq<Seq<char>>) -> Seq<char>
    decreases ls.len(),
{
    if ls.len() == 0 {
        Seq::empty()
    } else if ls.len() == 1 {
        ls[0]
    } else {
        join_nl(ls.drop_last()) + seq!['\n'] + ls.last()
    }
}

/// Reply content as default display mode prints it: fence-opening lines
/// removed, the rest joined with line feeds.
pub open spec fn filtered_content(s: Seq<char>) -> Seq<char> {
    join_nl(keep_lines(lines_of(s)))
}

/// What one reply's content looks like on the terminal under the given
/// display mode.
pub open spec fn displayed(s: Seq<char>, long: bool) -> Seq<char> {
    if long {
        s
    } else {
        filtered_content(s)
    }
}

/// The views of a sequence of lines.
pub open spec fn lines_view(ls: Seq<Vec<char>>) -> Seq<Seq<char>> {
    Seq::new(ls.len(), |i: int| ls[i]@)
}

/// Removes one trailing carriage return, if present.
fn strip_cr_exec(l: &mut Vec<char>)
    ensures
        final(l)@ == strip_cr(old(l)@),
{
    if l.len() > 0 && l[l.len() - 1] == '\r' {
        let _last = l.pop();
        proof {
            assert(final(l)@ =~= strip_cr(old(l)@));
        }
    }
}

/// Splits text into its lines.
fn split_lines(v: &Vec<char>) -> (r: Vec<Vec<char>>)
    ensures
        lines_view(r@) == lines_of(v@),
{
    let ghost s = v@;
    let mut out: Vec<Vec<char>> = Vec::new();
    if v.len() == 0 {
        proof {
            assert(lines_view(out@) =~= lines_of(s));
        }
        return out;
    }
    let mut cur: Vec<char> = Vec::new();
    let mut last_nl = false;
    let mut i: usize = 0;
    while i < v.len()
        invariant
            i <= v@.len(),
            v@.len() > 0,
            s == v@,
            i > 0 ==> last_nl == (s[i - 1] == '\n'),
            i < s.len() ==> lines_of(s) == lines_view(out@) + lines_from(s, i as int, cur@),
            i == s.len() && last_nl ==> lines_of(s) == lines_view(out@),
            i == s.len() && !last_nl ==> lines_of(s) == lines_view(out@) + seq![strip_cr(cur@)],
        decreases v@.len() - i,
    {
        let c = v[i];
        if c == '\n' {
            let ghost cur0 = cur@;
            let ghost out0 = out@;
            strip_cr_exec(&mut cur);
            out.push(cur);
            cur = Vec::new();
            last_nl = true;
            proof {
                assert(lines_view(out@) =~= lines_view(out0) + seq![strip_cr(cur0)]);
            }
        } else {
            cur.push(c);
            last_nl = false;
        }
        i = i + 1;
    }
    if !last_nl {
        strip_cr_exec(&mut cur);
        out.push(cur);
        proof {
            assert(lines_view(out@) =~= lines_of(s));
        }
    }
    proof {
        assert(lines_view(out@) =~= lines_of(s));
    }
    out
}

/// Keeps the lines that do not open with a fence marker.
fn filter_fences(ls: &Vec<Vec<char>>) -> (r: Vec<Vec<char>>)
    ensures
        lines_view(r@) == keep_lines(lines_view(ls@)),
{
    let mut kept: Vec<Vec<char>> = Vec::new();
    let mut i: usize = 0;
    proof {
        assert(lines_view(kept@) =~= keep_lines(lines_view(ls@.take(0))));
    }
    while i < ls.len()
        invariant
            i <= ls@.len(),
            lines_view(kept@) == keep_lines(lines_view(ls@.take(i as int))),
        decreases ls@.len() - i,
    {
        let line = &ls[i];
        let fence = line.len() >= 3 && line[0] == '`' && line[1] == '`' && line[2] == '`';
        let ghost pref = lines_view(ls@.take(i as int));
        let ghost kept0 = kept@;
        proof {
            assert(lines_view(ls@.take(i + 1)) =~= pref.push(ls@[i as int]@));
            assert(pref.push(ls@[i as int]@).drop_last() =~= pref);
        }
        if !fence {
            let mut one: Vec<char> = Vec::new();
            let mut j: usize = 0;
            while j < line.len()
                invariant
                    j <= line@.len(),
                    one@ == line@.subrange(0, j as int),
                decreases line@.len() - j,
            {
                one.push(line[j]);
                proof {
                    assert(one@ =~= line@.subrange(0, j + 1));
                }
                j = j + 1;
            }
            proof {
                assert(one@ =~= line@);
            }
            kept.push(one);
            proof {
                assert(lines_view(kept@) =~= lines_view(kept0).push(ls@[i as int]@));
            }
        }
        i = i + 1;
    }
    proof {
        assert(ls@.take(ls@.len() as int) =~= ls@);
    }
    kept
}

/// Joins lines with single line feeds.
fn join_lines(ls: &Vec<Vec<char>>) -> (r: Vec<char>)
    ensures
        r@ == join_nl(lines_view(ls@)),
{
    let mut out: Vec<char> = Vec::new();
    let mut i: usize = 0;
    while i < ls.len()
        invariant
            i <= ls@.len(),
            out@ == join_nl(lines_view(ls@.take(i as int))),
        decreases ls@.len() - i,
    {
        if i > 0 {
            out.push('\n');
        }
        let line = &ls[i];
        let mut j: usize = 0;
        let ghost mid = out@;
        while j < line.len()
            invariant
                j <= line@.len(),
                out@ == mid + line@.subrange(0, j as int),
            decreases line@.len() - j,
        {
            out.push(line[j]);
            proof {
                assert(out@ =~= mid + line@.subrange(0, j + 1));
            }
            j = j + 1;
        }
        proof {
            let ghost pref = lines_view(ls@.take(i as int));
            assert(lines_view(ls@.take(i + 1)) =~= pref.push(ls@[i as int]@));
            assert(pref.push(ls@[i as int]@).drop_last() =~= pref);
            assert(line@.subrange(0, line@.len() as int) =~= line@);
            if i == 0 {
                assert(out@ =~= join_nl(lines_view(ls@.take(i + 1))));
            } else {
                assert(out@ =~= join_nl(pref) + seq!['\n'] + ls@[i as int]@);
                assert(out@ =~= join_nl(lines_view(ls@.take(i + 1))));
            }
        }
        i = i + 1;
    }
    proof {
        assert(ls@.take(ls@.len() as int) =~= ls@);
    }
    out
}

/// Reply content as it goes to the terminal: unchanged in verbose display
/// mode, fence-opening lines removed otherwise.
pub fn render_content(content: &str, long: bool) -> (r: String)
    ensures
        r@ == displayed(content@, long),
{
    if long {
        return content.to_owned();
    }
    let v = chars_of(content);
    let lines = split_lines(&v);
    let kept = filter_fences(&lines);
    let joined = join_lines(&kept);
    string_from_chars(&joined)
}

} // verus!
