//! The page-buffer state machine.  A `Pager` owns the growing output
//! text of one render call and tracks how far the current page has
//! been filled.  Ghost state keeps the same text as a sequence of
//! completed pages (each a sequence of lines) plus the lines of the
//! page still being filled, which is what the exact-lines-per-page
//! guarantee is proved from.

use vstd::prelude::*;
use crate::Config;
use crate::text::{clean, translit, replace_invalid_asciis};

verus! {

/// The mathematical state of a pager: the index of the page being
/// filled, the completed pages (as lines), and the lines of the page
/// being filled.
pub struct PagerModel {
    /// Index of the page currently being filled.  Starts at -1 so that
    /// front-matter pages sit below the first user-visible page number.
    pub page: int,
    /// Completed pages, oldest first, each as its sequence of lines.
    pub done: Seq<Seq<Seq<char>>>,
    /// Lines of the page currently being filled.
    pub cur: Seq<Seq<char>>,
}

/// The text of one page: each line followed by a line break.
pub open spec fn flat_lines(lines: Seq<Seq<char>>) -> Seq<char>
    decreases lines.len(),
{
    if lines.len() == 0 {
        Seq::empty()
    } else {
        lines[0] + seq!['\n'] + flat_lines(lines.drop_first())
    }
}

/// The text of a run of completed pages: each page's lines followed by
/// a form feed.
pub open spec fn flat_pages(pages: Seq<Seq<Seq<char>>>) -> Seq<char>
    decreases pages.len(),
{
    if pages.len() == 0 {
        Seq::empty()
    } else {
        flat_lines(pages[0]) + seq!['\x0C'] + flat_pages(pages.drop_first())
    }
}

/// The buffer text a pager state denotes.
pub open spec fn m_out(m: PagerModel) -> Seq<char> {
    flat_pages(m.done) + flat_lines(m.cur)
}

pub proof fn lemma_flat_lines_snoc(lines: Seq<Seq<char>>, l: Seq<char>)
    ensures
        flat_lines(lines.push(l)) == flat_lines(lines) + l + seq!['\n'],
    decreases lines.len(),
{
    if lines.len() == 0 {
        assert(lines.push(l).drop_first() =~= lines);
        assert(flat_lines(lines.push(l)) =~= flat_lines(lines) + l + seq!['\n']);
    } else {
        assert(lines.push(l).drop_first() =~= lines.drop_first().push(l));
        assert(lines.push(l)[0] == lines[0]);
        lemma_flat_lines_snoc(lines.drop_first(), l);
        assert(flat_lines(lines.push(l)) =~= flat_lines(lines) + l + seq!['\n']);
    }
}

pub proof fn lemma_flat_pages_snoc(pages: Seq<Seq<Seq<char>>>, p: Seq<Seq<char>>)
    ensures
        flat_pages(pages.push(p)) == flat_pages(pages) + flat_lines(p) + seq!['\x0C'],
    decreases pages.len(),
{
    if pages.len() == 0 {
        assert(pages.push(p).drop_first() =~= pages);
        assert(flat_pages(pages.push(p)) =~= flat_pages(pages) + flat_lines(p) + seq!['\x0C']);
    } else {
        assert(pages.push(p).drop_first() =~= pages.drop_first().push(p));
        assert(pages.push(p)[0] == pages[0]);
        lemma_flat_pages_snoc(pages.drop_first(), p);
        assert(flat_pages(pages.push(p)) =~= flat_pages(pages) + flat_lines(p) + seq!['\x0C']);
    }
}

/// Number of page lines the footer occupies.  With a single-line page
/// there is no room left for a footer, so none is written.
pub open spec fn footer_rows(cfg: Config) -> int {
    if cfg.page_height >= 2 {
        1
    } else {
        0
    }
}

/// Lines of a page available to flowing content: everything above the
/// footer.
pub open spec fn content_cap(cfg: Config) -> int {
    cfg.page_height - footer_rows(cfg)
}

/// Whether page `p` carries a running header: the policy threshold must
/// be reached, and the page must have room for the three header lines,
/// the footer, and at least one content line.
pub open spec fn header_on(cfg: Config, p: int) -> bool {
    cfg.page_height >= 5 && p >= cfg.header_start
}

/// The next page index; the counter saturates defensively at the top of
/// its range rather than wrapping.
pub open spec fn next_page_no(p: int) -> int {
    if p < i64::MAX {
        p + 1
    } else {
        p
    }
}

/// `lines` padded with blank lines up to `k` lines; unchanged when it
/// is already that long.
pub open spec fn pad_lines(lines: Seq<Seq<char>>, k: int) -> Seq<Seq<char>> {
    if lines.len() >= k {
        lines
    } else {
        lines + Seq::new((k - lines.len()) as nat, |i: int| Seq::<char>::empty())
    }
}

/// Appending one line: the text is transliterated on its way into the
/// buffer.
pub open spec fn m_append(m: PagerModel, t: Seq<char>) -> PagerModel {
    PagerModel { page: m.page, done: m.done, cur: m.cur.push(translit(t)) }
}

/// Padding the current page with blank lines up to `k` lines.
pub open spec fn m_pad(m: PagerModel, k: int) -> PagerModel {
    PagerModel { page: m.page, done: m.done, cur: pad_lines(m.cur, k) }
}

/// Closing the current page: a form feed follows its lines in the
/// buffer, the page counter advances, and a fresh page begins.
pub open spec fn m_force(m: PagerModel) -> PagerModel {
    PagerModel { page: next_page_no(m.page), done: m.done.push(m.cur), cur: Seq::empty() }
}

/// Every line a pager state holds is free of line breaks and form
/// feeds.
pub open spec fn lines_clean(lines: Seq<Seq<char>>) -> bool {
    forall|i: int| 0 <= i < lines.len() ==> clean(#[trigger] lines[i])
}

/// Structural well-formedness of a pager state under a configuration:
/// every completed page holds exactly `page_height` clean lines, and
/// the open page holds at most `content_cap` clean lines.
pub open spec fn model_wf(m: PagerModel, cfg: Config) -> bool {
    &&& forall|i: int|
        0 <= i < m.done.len() ==> (#[trigger] m.done[i]).len() == cfg.page_height && lines_clean(
            m.done[i],
        )
    &&& m.cur.len() <= content_cap(cfg)
    &&& lines_clean(m.cur)
    &&& -1 <= m.page <= i64::MAX
}

/// The page-buffer state machine: page bookkeeping plus the output
/// buffer, the one mutable resource of a render call.
pub struct Pager {
    /// Index of the page currently being filled.
    pub page: i64,
    /// Number of lines already on the current page.
    pub line_in_page: usize,
    /// Lines per page, copied from the configuration.
    pub page_height: usize,
    /// The accumulated output.
    pub out: String,
    /// Ghost: completed pages as lines.
    pub done: Ghost<Seq<Seq<Seq<char>>>>,
    /// Ghost: lines of the page being filled.
    pub cur: Ghost<Seq<Seq<char>>>,
}

impl View for Pager {
    type V = PagerModel;

    open spec fn view(&self) -> PagerModel {
        PagerModel { page: self.page as int, done: self.done@, cur: self.cur@ }
    }
}

impl Pager {
    /// Coupling between the executable fields and the ghost structure.
    pub open spec fn inv(self) -> bool {
        &&& self.out@ == m_out(self@)
        &&& self.line_in_page == self.cur@.len()
    }

    /// A fresh pager: empty buffer, page index below the first
    /// user-visible page.
    pub fn new(config: &Config) -> (p: Pager)
        ensures
            p.inv(),
            p@ == (PagerModel { page: -1, done: Seq::<Seq<Seq<char>>>::empty(), cur: Seq::<
                Seq<char>,
            >::empty() }),
            p.page_height == config.page_height,
    {
        let p = Pager {
            page: -1,
            line_in_page: 0,
            page_height: config.page_height,
            out: String::new(),
            done: Ghost(Seq::empty()),
            cur: Ghost(Seq::empty()),
        };
        proof {
            assert(p.out@ =~= m_out(p@));
        }
        p
    }

    /// Appends one line to the current page, transliterating it on the
    /// way in.  No page-boundary bookkeeping happens here; the caller
    /// decides when pages break.
    pub fn append_line(&mut self, text: &str)
        requires
            old(self).inv(),
            old(self).line_in_page < usize::MAX,
        ensures
            final (self).inv(),
            final (self)@ == m_append(old(self)@, text@),
            final (self).page_height == old(self).page_height,
    {
        let t = replace_invalid_asciis(text);
        self.out.append(t.as_str());
        self.out.append("\n");
        self.line_in_page = self.line_in_page + 1;
        proof {
            self.cur@ = self.cur@.push(translit(text@));
            lemma_flat_lines_snoc(old(self).cur@, translit(text@));
            reveal_strlit("\n");
            assert("\n"@ =~= seq!['\n']);
            assert(self.out@ =~= m_out(self@));
        }
    }

    /// Pads the current page with blank lines until it holds `k` lines.
    pub fn pad_to(&mut self, k: usize)
        requires
            old(self).inv(),
        ensures
            final (self).inv(),
            final (self)@ == m_pad(old(self)@, k as int),
            final (self).page_height == old(self).page_height,
    {
        while self.line_in_page < k
            invariant
                self.inv(),
                self.page_height == old(self).page_height,
                self@.page == old(self)@.page,
                self@.done == old(self)@.done,
                old(self)@.cur.len() <= self@.cur.len(),
                self@.cur.len() <= k || self@.cur == old(self)@.cur,
                self@.cur == pad_lines(old(self)@.cur, self@.cur.len() as int),
            decreases k - self.line_in_page,
        {
            self.out.append("\n");
            self.line_in_page = self.line_in_page + 1;
            proof {
                let prev = self.cur@;
                self.cur@ = self.cur@.push(Seq::empty());
                lemma_flat_lines_snoc(prev, Seq::empty());
                reveal_strlit("\n");
                assert("\n"@ =~= seq!['\n']);
                assert(Seq::<char>::empty() + seq!['\n'] =~= seq!['\n']);
                assert(self.out@ =~= m_out(self@));
                assert(self.cur@ =~= pad_lines(old(self)@.cur, self.cur@.len() as int));
            }
        }
        proof {
            assert(self@.cur =~= pad_lines(old(self)@.cur, k as int));
        }
    }

    /// Pads the current page with blank lines to its full height.
    pub fn pad_to_page_end(&mut self)
        requires
            old(self).inv(),
        ensures
            final (self).inv(),
            final (self)@ == m_pad(old(self)@, old(self).page_height as int),
            final (self).page_height == old(self).page_height,
    {
        let h = self.page_height;
        self.pad_to(h);
    }

    /// Closes the current page with a form feed and opens the next one.
    /// Writes no header or footer; the caller controls those.
    pub fn force_page_break(&mut self)
        requires
            old(self).inv(),
        ensures
            final (self).inv(),
            final (self)@ == m_force(old(self)@),
            final (self).page_height == old(self).page_height,
    {
        self.out.push('\x0C');
        if self.page < i64::MAX {
            self.page = self.page + 1;
        }
        self.line_in_page = 0;
        proof {
            self.done@ = self.done@.push(old(self).cur@);
            self.cur@ = Seq::empty();
            lemma_flat_pages_snoc(old(self).done@, old(self).cur@);
            assert(self.out@ =~= m_out(self@));
        }
    }
}

} // verus!
