//! Parsing of raw directory-listing output into volume-path entries.
//!
//! The raw output of a listing utility is split into lines; a line whose
//! text (after dropping a carriage return left by a CRLF line ending) is
//! empty is discarded, and every surviving line is trimmed of leading and
//! trailing whitespace. Each surviving line yields one entry, in order.

use vstd::prelude::*;

verus! {

/// Whitespace characters trimmed from the ends of a line.
pub open spec fn is_space_char(c: char) -> bool {
    c == ' ' || c == '\t' || c == '\r' || c == '\n' || c == '\u{b}' || c == '\u{c}'
}

/// The line with leading and trailing whitespace removed.
pub open spec fn trim_spec(s: Seq<char>) -> Seq<char>
    decreases s.len(),
{
    if s.len() == 0 {
        s
    } else if is_space_char(s[0]) {
        trim_spec(s.drop_first())
    } else if is_space_char(s.last()) {
        trim_spec(s.drop_last())
    } else {
        s
    }
}

/// The segments of `s` delimited by newline characters, in order.
/// The result always has one more segment than `s` has newlines.
pub open spec fn split_lines(s: Seq<char>) -> Seq<Seq<char>>
    decreases s.len(),
{
    if s.len() == 0 {
        seq![Seq::<char>::empty()]
    } else if s[0] == '\n' {
        seq![Seq::<char>::empty()] + split_lines(s.drop_first())
    } else {
        let rest = split_lines(s.drop_first());
        seq![seq![s[0]] + rest[0]] + rest.drop_first()
    }
}

/// The entry a raw line segment contributes: nothing if the segment is
/// empty once a trailing carriage return is dropped, else the trimmed text.
pub open spec fn line_entry(seg: Seq<char>) -> Option<Seq<char>> {
    let core = if seg.len() > 0 && seg.last() == '\r' {
        seg.drop_last()
    } else {
        seg
    };
    if core.len() == 0 {
        Option::None
    } else {
        Option::Some(trim_spec(core))
    }
}

/// The entry of one segment, as a sequence of zero or one entries.
pub open spec fn entry_seq(seg: Seq<char>) -> Seq<Seq<char>> {
    match line_entry(seg) {
        Option::Some(e) => seq![e],
        Option::None => Seq::<Seq<char>>::empty(),
    }
}

/// The entries contributed by a sequence of line segments, in order.
pub open spec fn entries_of(lines: Seq<Seq<char>>) -> Seq<Seq<char>>
    decreases lines.len(),
{
    if lines.len() == 0 {
        Seq::<Seq<char>>::empty()
    } else {
        entry_seq(lines[0]) + entries_of(lines.drop_first())
    }
}

/// What parsing a whole raw listing output yields: the non-discarded,
/// trimmed entries of its lines, in order of appearance.
pub open spec fn parse_output_spec(s: Seq<char>) -> Seq<Seq<char>> {
    entries_of(split_lines(s))
}

/// What parsing a tabular listing with a leading header line yields:
/// the entries of every line after the first.
pub open spec fn parse_tabular_spec(s: Seq<char>) -> Seq<Seq<char>> {
    entries_of(split_lines(s).drop_first())
}

pub proof fn lemma_split_lines_nonempty(s: Seq<char>)
    ensures
        split_lines(s).len() >= 1,
    decreases s.len(),
{
    if s.len() == 0 {
    } else if s[0] == '\n' {
        lemma_split_lines_nonempty(s.drop_first());
    } else {
        lemma_split_lines_nonempty(s.drop_first());
    }
}

/// A text without a newline is a single line segment.
pub proof fn lemma_split_lines_no_newline(s: Seq<char>)
    requires
        forall|j: int| 0 <= j < s.len() ==> s[j] != '\n',
    ensures
        split_lines(s) =~= seq![s],
    decreases s.len(),
{
    if s.len() == 0 {
        assert(s =~= Seq::<char>::empty());
        assert(split_lines(s) =~= seq![s]);
    } else {
        lemma_split_lines_no_newline(s.drop_first());
        let rest = split_lines(s.drop_first());
        assert(rest =~= seq![s.drop_first()]);
        assert(seq![s[0]] + s.drop_first() =~= s);
        assert(split_lines(s) =~= seq![s]);
    }
}

/// Splitting at the first newline peels off the first line segment.
pub proof fn lemma_split_lines_at(s: Seq<char>, k: int)
    requires
        0 <= k < s.len(),
        s[k] == '\n',
        forall|j: int| 0 <= j < k ==> s[j] != '\n',
    ensures
        split_lines(s) =~= seq![s.take(k)] + split_lines(s.skip(k + 1)),
    decreases k,
{
    if k == 0 {
        assert(s.take(0) =~= Seq::<char>::empty());
        assert(s.skip(1) =~= s.drop_first());
    } else {
        let t = s.drop_first();
        lemma_split_lines_at(t, k - 1);
        lemma_split_lines_nonempty(t.skip(k));
        let rest = split_lines(t);
        assert(rest =~= seq![t.take(k - 1)] + split_lines(t.skip(k)));
        assert(rest[0] == t.take(k - 1));
        assert(seq![s[0]] + t.take(k - 1) =~= s.take(k));
        assert(rest.drop_first() =~= split_lines(t.skip(k)));
        assert(t.skip(k) =~= s.skip(k + 1));
        assert(split_lines(s) =~= seq![s.take(k)] + split_lines(s.skip(k + 1)));
    }
}

pub proof fn lemma_entries_of_cons(seg: Seq<char>, rest: Seq<Seq<char>>)
    ensures
        entries_of(seq![seg] + rest) =~= entry_seq(seg) + entries_of(rest),
{
    let l = seq![seg] + rest;
    assert(l[0] == seg);
    assert(l.drop_first() =~= rest);
}

pub proof fn lemma_entries_of_single(seg: Seq<char>)
    ensures
        entries_of(seq![seg]) =~= entry_seq(seg),
{
    lemma_entries_of_cons(seg, Seq::<Seq<char>>::empty());
    assert(seq![seg] + Seq::<Seq<char>>::empty() =~= seq![seg]);
    assert(entry_seq(seg) + Seq::<Seq<char>>::empty() =~= entry_seq(seg));
}

/// Exec check for the whitespace characters trimmed from a line.
fn is_space(c: char) -> (r: bool)
    ensures
        r == is_space_char(c),
{
    c == ' ' || c == '\t' || c == '\r' || c == '\n' || c == '\u{b}' || c == '\u{c}'
}

/// Appends the entry of the segment `output@[seg_start .. seg_end)`, if any.
fn push_segment_entry(output: &str, seg_start: usize, seg_end: usize, out: &mut Vec<String>)
    requires
        seg_start <= seg_end <= output@.len(),
    ensures
        final (out).deep_view() =~= old(out).deep_view() + entry_seq(
            output@.subrange(seg_start as int, seg_end as int),
        ),
{
    let ghost seg = output@.subrange(seg_start as int, seg_end as int);
    let mut end = seg_end;
    if seg_end > seg_start && output.get_char(seg_end - 1) == '\r' {
        end = seg_end - 1;
        proof {
            assert(seg.last() == output@[seg_end - 1]);
            assert(output@.subrange(seg_start as int, end as int) =~= seg.drop_last());
        }
    }
    let ghost core = output@.subrange(seg_start as int, end as int);
    proof {
        assert(line_entry(seg) == (if core.len() == 0 {
            Option::<Seq<char>>::None
        } else {
            Option::Some(trim_spec(core))
        }));
    }
    if end == seg_start {
        proof {
            assert(core.len() == 0);
            assert(out.deep_view() =~= old(out).deep_view() + entry_seq(seg));
        }
        return ;
    }
    let mut lo = seg_start;
    while lo < end && is_space(output.get_char(lo))
        invariant
            seg_start <= lo <= end <= output@.len(),
            trim_spec(core) == trim_spec(output@.subrange(lo as int, end as int)),
        decreases end - lo,
    {
        proof {
            let cur = output@.subrange(lo as int, end as int);
            assert(cur[0] == output@[lo as int]);
            assert(cur.drop_first() =~= output@.subrange(lo + 1, end as int));
        }
        lo = lo + 1;
    }
    let mut hi = end;
    while hi > lo && is_space(output.get_char(hi - 1))
        invariant
            seg_start <= lo <= hi <= end <= output@.len(),
            lo < end ==> !is_space_char(output@[lo as int]),
            trim_spec(core) == trim_spec(output@.subrange(lo as int, hi as int)),
        decreases hi - lo,
    {
        proof {
            let cur = output@.subrange(lo as int, hi as int);
            assert(cur[0] == output@[lo as int]);
            assert(cur.last() == output@[hi - 1]);
            assert(cur.drop_last() =~= output@.subrange(lo as int, hi - 1));
        }
        hi = hi - 1;
    }
    proof {
        let cur = output@.subrange(lo as int, hi as int);
        if cur.len() > 0 {
            assert(cur[0] == output@[lo as int]);
            assert(cur.last() == output@[hi - 1]);
        }
        assert(trim_spec(core) == cur);
    }
    let piece = output.substring_char(lo, hi);
    let entry = piece.to_owned();
    let ghost pre = out.deep_view();
    out.push(entry);
    proof {
        assert(out.deep_view() =~= pre.push(trim_spec(core)));
        assert(out.deep_view() =~= old(out).deep_view() + entry_seq(seg));
    }
}

/// Parses the raw listing text from character position `start` on.
pub(crate) fn parse_from(output: &str, start: usize) -> (out: Vec<String>)
    requires
        start <= output@.len(),
    ensures
        out.deep_view() =~= entries_of(split_lines(output@.skip(start as int))),
{
    let ghost s = output@;
    let n = output.unicode_len();
    let mut out: Vec<String> = Vec::new();
    let mut pos = start;
    loop
        invariant
            start <= pos <= n,
            n == s.len(),
            s == output@,
            entries_of(split_lines(s.skip(start as int))) =~= out.deep_view() + entries_of(
                split_lines(s.skip(pos as int)),
            ),
        decreases n - pos,
    {
        let mut k = pos;
        while k < n && output.get_char(k) != '\n'
            invariant
                pos <= k <= n,
                n == s.len(),
                s == output@,
                forall|j: int| pos <= j < k ==> s[j] != '\n',
            decreases n - k,
        {
            k = k + 1;
        }
        let ghost pre = out.deep_view();
        let ghost seg = s.subrange(pos as int, k as int);
        push_segment_entry(output, pos, k, &mut out);
        if k == n {
            proof {
                let tail = s.skip(pos as int);
                assert(forall|j: int| 0 <= j < tail.len() ==> tail[j] != '\n');
                lemma_split_lines_no_newline(tail);
                assert(tail =~= seg);
                lemma_entries_of_single(seg);
                assert(entries_of(split_lines(s.skip(start as int))) =~= out.deep_view());
            }
            return out;
        }
        proof {
            let tail = s.skip(pos as int);
            assert(tail[k - pos] == '\n');
            assert(forall|j: int| 0 <= j < k - pos ==> tail[j] != '\n');
            lemma_split_lines_at(tail, k - pos);
            assert(tail.take(k - pos) =~= seg);
            assert(tail.skip(k - pos + 1) =~= s.skip(k + 1));
            lemma_entries_of_cons(seg, split_lines(s.skip(k + 1)));
            assert(entries_of(split_lines(s.skip(start as int))) =~= out.deep_view()
                + entries_of(split_lines(s.skip(k + 1))));
        }
        pos = k + 1;
    }
}

} // verus!
