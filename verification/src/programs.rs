//! Parsing of the discovered program list: the shell hands back one program
//! name per line, and duplicates are dropped.

use vstd::prelude::*;

use crate::views::views_of;

verus! {

/// Index of the first line feed in `s`, or `s.len()` when there is none.
pub open spec fn line_break(s: Seq<char>) -> int
    decreases s.len(),
{
    if s.len() == 0 {
        0
    } else if s[0] == '\n' {
        0
    } else {
        1 + line_break(s.drop_first())
    }
}

pub proof fn lemma_line_break_bounds(s: Seq<char>)
    ensures
        0 <= line_break(s) <= s.len(),
        forall|k: int| 0 <= k < line_break(s) ==> s[k] != '\n',
        line_break(s) < s.len() ==> s[line_break(s)] == '\n',
    decreases s.len(),
{
    if s.len() > 0 && s[0] != '\n' {
        lemma_line_break_bounds(s.drop_first());
        assert forall|k: int| 0 <= k < line_break(s) implies s[k] != '\n' by {
            if k > 0 {
                assert(s[k] == s.drop_first()[k - 1]);
            }
        }
    }
}

/// With no line feed in `a`, the first one of `a + b` lies in `b`.
pub proof fn lemma_line_break_concat(a: Seq<char>, b: Seq<char>)
    requires
        forall|k: int| 0 <= k < a.len() ==> a[k] != '\n',
    ensures
        line_break(a + b) == a.len() + line_break(b),
    decreases a.len(),
{
    if a.len() == 0 {
        assert(a + b =~= b);
    } else {
        assert((a + b).drop_first() =~= a.drop_first() + b);
        lemma_line_break_concat(a.drop_first(), b);
    }
}

/// One carriage return is dropped from the end of a line that had one.
pub open spec fn strip_cr(line: Seq<char>) -> Seq<char> {
    if line.len() > 0 && line.last() == '\r' {
        line.drop_last()
    } else {
        line
    }
}

/// The lines of `s`: split at each line feed, one carriage return dropped
/// just before a line feed, the part after the last line feed kept as it
/// stands when it is non-empty.
pub open spec fn split_lines(s: Seq<char>) -> Seq<Seq<char>>
    decreases s.len(),
    via split_lines_decreases
{
    if s.len() == 0 {
        Seq::empty()
    } else if line_break(s) == s.len() {
        seq![s]
    } else {
        seq![strip_cr(s.take(line_break(s)))] + split_lines(s.skip(line_break(s) + 1))
    }
}

#[via_fn]
proof fn split_lines_decreases(s: Seq<char>) {
    lemma_line_break_bounds(s);
}

/// The first occurrence of each line, in order of first appearance.
pub open spec fn dedup(s: Seq<Seq<char>>) -> Seq<Seq<char>>
    decreases s.len(),
{
    if s.len() == 0 {
        Seq::empty()
    } else {
        let d = dedup(s.drop_last());
        if d.contains(s.last()) {
            d
        } else {
            d.push(s.last())
        }
    }
}

/// Whether two names hold the same characters.
fn chars_equal(a: &Vec<char>, b: &Vec<char>) -> (r: bool)
    ensures
        r == (a@ == b@),
{
    if a.len() != b.len() {
        return false;
    }
    let mut i: usize = 0;
    while i < a.len()
        invariant
            a@.len() == b@.len(),
            i <= a@.len(),
            forall|k: int| 0 <= k < i ==> a@[k] == b@[k],
        decreases a@.len() - i,
    {
        if a[i] != b[i] {
            return false;
        }
        i += 1;
    }
    proof {
        assert(a@ =~= b@);
    }
    true
}

/// Whether `list` already holds `x`.
fn holds_name(list: &Vec<Vec<char>>, x: &Vec<char>) -> (r: bool)
    ensures
        r == views_of(list@).contains(x@),
{
    let mut j: usize = 0;
    while j < list.len()
        invariant
            j <= list@.len(),
            forall|k: int| 0 <= k < j ==> views_of(list@)[k] != x@,
        decreases list@.len() - j,
    {
        if chars_equal(&list[j], x) {
            proof {
                assert(views_of(list@)[j as int] == x@);
            }
            return true;
        }
        j += 1;
    }
    false
}

/// Split the raw shell output into lines.
pub fn split_into_lines(raw: &Vec<char>) -> (r: Vec<Vec<char>>)
    ensures
        views_of(r@) == split_lines(raw@),
{
    let mut lines: Vec<Vec<char>> = Vec::new();
    let mut cur: Vec<char> = Vec::new();
    let mut i: usize = 0;
    proof {
        assert(cur@ + raw@.skip(0) =~= raw@);
        assert(views_of(lines@) =~= Seq::<Seq<char>>::empty());
        assert(views_of(lines@) + split_lines(raw@) =~= split_lines(raw@));
    }
    while i < raw.len()
        invariant
            i <= raw@.len(),
            forall|k: int| 0 <= k < cur@.len() ==> cur@[k] != '\n',
            views_of(lines@) + split_lines(cur@ + raw@.skip(i as int)) == split_lines(raw@),
        decreases raw@.len() - i,
    {
        let c = raw[i];
        let ghost rest: Seq<char> = raw@.skip(i as int);
        proof {
            assert(rest[0] == raw@[i as int]);
        }
        if c == '\n' {
            let ghost lines_before: Seq<Vec<char>> = lines@;
            let ghost cur_view: Seq<char> = cur@;
            // close the line, dropping one carriage return before the feed
            if cur.len() > 0 && cur[cur.len() - 1] == '\r' {
                cur.pop();
            }
            proof {
                assert(cur@ =~= strip_cr(cur_view));
            }
            lines.push(cur);
            cur = Vec::new();
            proof {
                crate::views::lemma_views_of_push(lines_before, lines@.last());
                lemma_line_break_concat(cur_view, rest);
                assert(line_break(cur_view + rest) == cur_view.len());
                assert((cur_view + rest).len() > cur_view.len());
                assert((cur_view + rest).take(cur_view.len() as int) =~= cur_view);
                assert((cur_view + rest).skip(cur_view.len() as int + 1) =~= rest.drop_first());
                assert(split_lines(cur_view + rest) == seq![strip_cr(cur_view)] + split_lines(
                    rest.drop_first(),
                ));
                assert(rest.drop_first() =~= raw@.skip(i as int + 1));
                assert(cur@ + raw@.skip(i as int + 1) =~= raw@.skip(i as int + 1));
                assert(views_of(lines@) + split_lines(raw@.skip(i as int + 1)) =~= (views_of(
                    lines_before,
                ) + seq![strip_cr(cur_view)]) + split_lines(rest.drop_first()));
            }
        } else {
            let ghost cur_before: Seq<char> = cur@;
            cur.push(c);
            proof {
                assert(cur@ + raw@.skip(i as int + 1) =~= cur_before + rest);
            }
        }
        i += 1;
    }
    proof {
        assert(cur@ + raw@.skip(raw@.len() as int) =~= cur@);
    }
    if cur.len() > 0 {
        let ghost lines_before: Seq<Vec<char>> = lines@;
        proof {
            lemma_line_break_concat(cur@, Seq::<char>::empty());
            assert(cur@ + Seq::<char>::empty() =~= cur@);
            assert(line_break(cur@) == cur@.len());
            assert(split_lines(cur@) == seq![cur@]);
        }
        lines.push(cur);
        proof {
            crate::views::lemma_views_of_push(lines_before, lines@.last());
            assert(views_of(lines@) =~= views_of(lines_before) + seq![lines@.last()@]);
        }
    } else {
        proof {
            assert(split_lines(cur@) =~= Seq::<Seq<char>>::empty());
            assert(views_of(lines@) + Seq::<Seq<char>>::empty() =~= views_of(lines@));
        }
    }
    lines
}

/// Drop every repeated line, keeping first occurrences in order.
pub fn dedup_lines(lines: &Vec<Vec<char>>) -> (r: Vec<Vec<char>>)
    ensures
        views_of(r@) == dedup(views_of(lines@)),
{
    let ghost vl: Seq<Seq<char>> = views_of(lines@);
    let mut out: Vec<Vec<char>> = Vec::new();
    let mut i: usize = 0;
    proof {
        assert(vl.take(0) =~= Seq::<Seq<char>>::empty());
        assert(views_of(out@) =~= Seq::<Seq<char>>::empty());
    }
    while i < lines.len()
        invariant
            i <= vl.len(),
            vl == views_of(lines@),
            views_of(out@) == dedup(vl.take(i as int)),
        decreases vl.len() - i,
    {
        proof {
            assert(vl.take(i as int + 1).drop_last() =~= vl.take(i as int));
            assert(vl.take(i as int + 1).last() == vl[i as int]);
        }
        let x = &lines[i];
        if !holds_name(&out, x) {
            let ghost out_before: Seq<Vec<char>> = out@;
            out.push(x.clone());
            proof {
                assert(out@.last()@ =~= vl[i as int]);
                crate::views::lemma_views_of_push(out_before, out@.last());
            }
        }
        i += 1;
    }
    proof {
        assert(vl.take(vl.len() as int) =~= vl);
    }
    out
}

/// Turn the raw output of the program listing shell command into the
/// candidate list: its lines, first occurrence of each kept, in order.
pub fn parse_programs(raw: &Vec<char>) -> (r: Vec<Vec<char>>)
    ensures
        views_of(r@) == dedup(split_lines(raw@)),
{
    let lines = split_into_lines(raw);
    dedup_lines(&lines)
}

} // verus!
