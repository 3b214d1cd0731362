//! Page structure of the finished output text: splitting on form
//! feeds, counting lines, and the proof that a buffer assembled from
//! well-formed pages splits back into chunks of exactly the page
//! height.

use vstd::prelude::*;
use crate::pager::{flat_lines, flat_pages, lines_clean};
use crate::text::clean;

verus! {

/// How often `c` occurs in `s`.
pub open spec fn count_char(s: Seq<char>, c: char) -> int
    decreases s.len(),
{
    if s.len() == 0 {
        0
    } else {
        (if s[0] == c {
            1int
        } else {
            0int
        }) + count_char(s.drop_first(), c)
    }
}

/// `c` does not occur in `s`.
pub open spec fn no_char(s: Seq<char>, c: char) -> bool {
    forall|i: int| 0 <= i < s.len() ==> s[i] != c
}

/// Index of the first occurrence of `c` in `s`, or -1.
pub open spec fn find_char(s: Seq<char>, c: char) -> int
    decreases s.len(),
{
    if s.len() == 0 {
        -1
    } else if s[0] == c {
        0
    } else {
        let r = find_char(s.drop_first(), c);
        if r < 0 {
            -1
        } else {
            r + 1
        }
    }
}

/// `s` split at every occurrence of `c`, the separators dropped; one
/// more part than there are separators, empty parts kept.
pub open spec fn split_char(s: Seq<char>, c: char) -> Seq<Seq<char>>
    decreases s.len(),
    via split_char_decreases
{
    let f = find_char(s, c);
    if f < 0 {
        seq![s]
    } else {
        seq![s.take(f)] + split_char(s.skip(f + 1), c)
    }
}

pub proof fn lemma_find_range(s: Seq<char>, c: char)
    ensures
        -1 <= find_char(s, c) < s.len(),
    decreases s.len(),
{
    if s.len() != 0 && s[0] != c {
        lemma_find_range(s.drop_first(), c);
    }
}

#[via_fn]
proof fn split_char_decreases(s: Seq<char>, c: char) {
    lemma_find_range(s, c);
}

pub proof fn lemma_count_concat(a: Seq<char>, b: Seq<char>, c: char)
    ensures
        count_char(a + b, c) == count_char(a, c) + count_char(b, c),
    decreases a.len(),
{
    if a.len() == 0 {
        assert(a + b =~= b);
    } else {
        assert((a + b).drop_first() =~= a.drop_first() + b);
        lemma_count_concat(a.drop_first(), b, c);
    }
}

pub proof fn lemma_count_no_char(s: Seq<char>, c: char)
    requires
        no_char(s, c),
    ensures
        count_char(s, c) == 0,
    decreases s.len(),
{
    if s.len() != 0 {
        assert(forall|i: int|
            0 <= i < s.drop_first().len() ==> #[trigger] s.drop_first()[i] == s[i + 1]);
        lemma_count_no_char(s.drop_first(), c);
    }
}

pub proof fn lemma_find_no_char(s: Seq<char>, c: char)
    requires
        no_char(s, c),
    ensures
        find_char(s, c) == -1,
    decreases s.len(),
{
    if s.len() != 0 {
        assert(forall|i: int|
            0 <= i < s.drop_first().len() ==> #[trigger] s.drop_first()[i] == s[i + 1]);
        lemma_find_no_char(s.drop_first(), c);
    }
}

pub proof fn lemma_find_prefix(a: Seq<char>, b: Seq<char>, c: char)
    requires
        no_char(a, c),
    ensures
        find_char(a + seq![c] + b, c) == a.len(),
    decreases a.len(),
{
    let s = a + seq![c] + b;
    if a.len() == 0 {
        assert(s[0] == c);
    } else {
        assert(s[0] == a[0]);
        assert(s[0] != c);
        assert(forall|i: int|
            0 <= i < a.drop_first().len() ==> #[trigger] a.drop_first()[i] == a[i + 1]);
        lemma_find_prefix(a.drop_first(), b, c);
        assert(s.drop_first() =~= a.drop_first() + seq![c] + b);
    }
}

pub proof fn lemma_split_no_char(s: Seq<char>, c: char)
    requires
        no_char(s, c),
    ensures
        split_char(s, c) == seq![s],
{
    lemma_find_no_char(s, c);
}

pub proof fn lemma_split_prefix(a: Seq<char>, b: Seq<char>, c: char)
    requires
        no_char(a, c),
    ensures
        split_char(a + seq![c] + b, c) == seq![a] + split_char(b, c),
{
    let s = a + seq![c] + b;
    lemma_find_prefix(a, b, c);
    let f = find_char(s, c);
    assert(f == a.len());
    assert(s.take(f) =~= a);
    assert(s.skip(f + 1) =~= b);
    assert(split_char(s, c) == seq![s.take(f)] + split_char(s.skip(f + 1), c));
}

/// The text of clean lines holds one line break per line and no form
/// feed.
pub proof fn lemma_flat_lines_props(lines: Seq<Seq<char>>)
    requires
        lines_clean(lines),
    ensures
        count_char(flat_lines(lines), '\n') == lines.len(),
        no_char(flat_lines(lines), '\x0C'),
    decreases lines.len(),
{
    if lines.len() == 0 {
    } else {
        assert(clean(lines[0]));
        assert(forall|i: int|
            0 <= i < lines.drop_first().len() ==> #[trigger] lines.drop_first()[i] == lines[i + 1]);
        assert(lines_clean(lines.drop_first()));
        lemma_flat_lines_props(lines.drop_first());
        let l0 = lines[0];
        let rest = flat_lines(lines.drop_first());
        assert(flat_lines(lines) == l0 + seq!['\n'] + rest);
        lemma_count_concat(l0 + seq!['\n'], rest, '\n');
        lemma_count_concat(l0, seq!['\n'], '\n');
        assert(no_char(l0, '\n')) by {
            assert(forall|i: int| 0 <= i < l0.len() ==> #[trigger] l0[i] != '\n');
        }
        lemma_count_no_char(l0, '\n');
        assert(count_char(seq!['\n'], '\n') == 1) by {
            reveal_with_fuel(count_char, 2);
            assert(seq!['\n'].drop_first() =~= Seq::<char>::empty());
        }
        assert(count_char(flat_lines(lines), '\n') == lines.len());
        assert forall|i: int| 0 <= i < flat_lines(lines).len() implies flat_lines(lines)[i]
            != '\x0C' by {
            if i < l0.len() {
                assert(flat_lines(lines)[i] == l0[i]);
            } else if i == l0.len() {
                assert(flat_lines(lines)[i] == '\n');
            } else {
                assert(flat_lines(lines)[i] == rest[i - l0.len() - 1]);
            }
        }
    }
}

/// A buffer assembled from completed pages of exactly `h` clean lines
/// each, followed by one last such page without a trailing form feed,
/// splits on form feeds into `done.len() + 1` chunks of exactly `h`
/// line breaks each.
pub proof fn lemma_paged_output(done: Seq<Seq<Seq<char>>>, last: Seq<Seq<char>>, h: int)
    requires
        forall|i: int|
            0 <= i < done.len() ==> (#[trigger] done[i]).len() == h && lines_clean(done[i]),
        last.len() == h,
        lines_clean(last),
    ensures
        split_char(flat_pages(done) + flat_lines(last), '\x0C').len() == done.len() + 1,
        forall|i: int|
            0 <= i < done.len() + 1 ==> count_char(
                #[trigger] split_char(flat_pages(done) + flat_lines(last), '\x0C')[i],
                '\n',
            ) == h,
    decreases done.len(),
{
    let s = flat_pages(done) + flat_lines(last);
    if done.len() == 0 {
        assert(s =~= flat_lines(last));
        lemma_flat_lines_props(last);
        lemma_split_no_char(s, '\x0C');
        assert(split_char(s, '\x0C') == seq![s]);
        assert(split_char(s, '\x0C')[0] == s);
    } else {
        let p0 = flat_lines(done[0]);
        assert(forall|i: int|
            0 <= i < done.drop_first().len() ==> #[trigger] done.drop_first()[i] == done[i + 1]);
        let rest = flat_pages(done.drop_first()) + flat_lines(last);
        assert(s =~= p0 + seq!['\x0C'] + rest);
        assert(lines_clean(done[0]));
        lemma_flat_lines_props(done[0]);
        lemma_split_prefix(p0, rest, '\x0C');
        lemma_paged_output(done.drop_first(), last, h);
        let parts = split_char(s, '\x0C');
        let sub = split_char(rest, '\x0C');
        assert(parts == seq![p0] + sub);
        assert(parts.len() == done.len() + 1);
        assert forall|i: int| 0 <= i < done.len() + 1 implies count_char(parts[i], '\n') == h by {
            if i == 0 {
                assert(parts[0] == p0);
            } else {
                assert(parts[i] == sub[i - 1]);
            }
        }
    }
}

} // verus!
