//! The rendering engine: header and footer policy, the model of every
//! buffer transition, and the renderer that drives one pager over a
//! whole document.

use vstd::prelude::*;
use vstd::string::StrSliceExecFns;
use crate::{content_wf, Author, Config, Content, Document, FooterStyle, OrderedListType};
use crate::pager::{
    content_cap, footer_rows, header_on, m_append, m_force, m_out, m_pad, Pager, PagerModel,
};
use crate::text::{
    clean, dec_spec, decimal_string, lemma_clean_concat, lemma_dec_clean, lemma_month_clean,
    lemma_roman_clean, lemma_take_left_clean, make_spaces, month_name, month_name_spec,
    roman_lower, roman_lower_spec, roman_upper, roman_upper_spec, spaces, take_left,
    truncate_to_width_left,
};
use crate::textops::{display_width, text_width, upper_of, wrap_of};

verus! {

// ---------------------------------------------------------------------
// Saturating index arithmetic.  Nesting depth and label widths are tiny
// in practice; the saturation only keeps the arithmetic total.
// ---------------------------------------------------------------------
/// `a - b`, floored at zero.
pub open spec fn sat_sub(a: int, b: int) -> int {
    if a >= b {
        a - b
    } else {
        0
    }
}

/// The indent of a nested list level: two more columns, saturating.
pub open spec fn bump2(ind: int) -> int {
    if ind + 2 <= usize::MAX {
        ind + 2
    } else {
        ind
    }
}

/// The hanging indent of a list item: past the label and one space,
/// saturating.
pub open spec fn hang_indent(ind: int, label_len: int) -> int {
    if ind + label_len + 1 <= usize::MAX {
        ind + label_len + 1
    } else {
        usize::MAX as int
    }
}

// ---------------------------------------------------------------------
// Footer policy.
// ---------------------------------------------------------------------
/// The bare page label: nothing on unnumbered pages, a lowercase roman
/// numeral up to `roman_pages`, a decimal numeral beyond.
pub open spec fn page_label_bare(cfg: Config, page: int) -> Seq<char> {
    if page < 1 {
        Seq::empty()
    } else if page <= cfg.roman_pages {
        roman_lower_spec(page)
    } else {
        dec_spec(page)
    }
}

/// The page label as the footer carries it, in the configured style.
pub open spec fn page_label_spec(cfg: Config, page: int) -> Seq<char> {
    match cfg.footer_style {
        FooterStyle::Bare => page_label_bare(cfg, page),
        FooterStyle::Bracketed => if page < 1 {
            Seq::empty()
        } else {
            "[Page "@ + page_label_bare(cfg, page) + "]"@
        },
    }
}

/// Pages one through `roman_pages` carry lowercase roman numerals;
/// later pages carry plain decimal numerals.
pub proof fn lemma_page_label_policy(cfg: Config, page: int)
    requires
        cfg.footer_style == FooterStyle::Bare,
    ensures
        1 <= page <= cfg.roman_pages ==> page_label_spec(cfg, page) == roman_lower_spec(page),
        page > cfg.roman_pages ==> page_label_spec(cfg, page) == dec_spec(page),
        page < 1 ==> page_label_spec(cfg, page) == Seq::<char>::empty(),
{
}

/// `parts` joined with `sep` between consecutive parts.
pub open spec fn join_with(parts: Seq<Seq<char>>, sep: Seq<char>) -> Seq<char>
    decreases parts.len(),
{
    if parts.len() == 0 {
        Seq::empty()
    } else if parts.len() == 1 {
        parts[0]
    } else {
        parts[0] + sep + join_with(parts.drop_first(), sep)
    }
}

pub proof fn lemma_join_snoc(parts: Seq<Seq<char>>, sep: Seq<char>, i: int)
    requires
        1 <= i < parts.len(),
    ensures
        join_with(parts.take(i + 1), sep) == join_with(parts.take(i), sep) + sep + parts[i],
    decreases i,
{
    if i == 1 {
        assert(parts.take(2)[0] == parts[0]);
        assert(parts.take(2).drop_first() =~= seq![parts[1]]);
        assert(join_with(seq![parts[1]], sep) == parts[1]);
        assert(parts.take(1) =~= seq![parts[0]]);
        assert(join_with(parts.take(1), sep) == parts[0]);
        assert(join_with(parts.take(2), sep) =~= join_with(parts.take(1), sep) + sep + parts[1]);
    } else {
        lemma_join_snoc(parts.drop_first(), sep, i - 1);
        assert(parts.take(i + 1).drop_first() =~= parts.drop_first().take(i));
        assert(parts.take(i).drop_first() =~= parts.drop_first().take(i - 1));
        assert(parts.take(i + 1)[0] == parts[0]);
        assert(parts.take(i)[0] == parts[0]);
        assert(parts.drop_first()[i - 1] == parts[i]);
        assert(join_with(parts.take(i + 1), sep) =~= join_with(parts.take(i), sep) + sep
            + parts[i]);
    }
}

pub proof fn lemma_join_clean(parts: Seq<Seq<char>>, sep: Seq<char>)
    requires
        forall|i: int| 0 <= i < parts.len() ==> clean(#[trigger] parts[i]),
        clean(sep),
    ensures
        clean(join_with(parts, sep)),
    decreases parts.len(),
{
    if parts.len() == 0 {
    } else if parts.len() == 1 {
        assert(clean(parts[0]));
    } else {
        assert(forall|i: int|
            0 <= i < parts.drop_first().len() ==> #[trigger] parts.drop_first()[i] == parts[i + 1]);
        lemma_join_clean(parts.drop_first(), sep);
        assert(clean(parts[0]));
        lemma_clean_concat(parts[0], sep);
        lemma_clean_concat(parts[0] + sep, join_with(parts.drop_first(), sep));
    }
}

/// The comma-joined author surnames of the footer's left field, each
/// surname independently shortened to at most twelve characters.
pub open spec fn authors_left_spec(doc: Document) -> Seq<char> {
    join_with(
        Seq::new(doc.authors@.len(), |i: int| take_left(doc.authors@[i].last_name@, 12)),
        ", "@,
    )
}

/// The one-line footer: author surnames on the left, the page label on
/// the right.  When both would overflow the width, the left field is
/// shortened character by character and the label is kept whole;
/// otherwise spaces pad the middle to exactly the page width.
pub open spec fn footer_line_spec(doc: Document, cfg: Config, page: int) -> Seq<char> {
    let left = authors_left_spec(doc);
    let right = page_label_spec(cfg, page);
    if left.len() + right.len() >= cfg.page_width {
        take_left(left, cfg.page_width - right.len()) + right
    } else {
        left + spaces(cfg.page_width - left.len() - right.len()) + right
    }
}

/// When the two footer fields meet or exceed the page width, the page
/// label is emitted unmodified and the author field is shortened to
/// exactly the remaining room.
pub proof fn lemma_footer_precedence(doc: Document, cfg: Config, page: int)
    requires
        authors_left_spec(doc).len() + page_label_spec(cfg, page).len() >= cfg.page_width,
    ensures
        footer_line_spec(doc, cfg, page) == take_left(
            authors_left_spec(doc),
            cfg.page_width - page_label_spec(cfg, page).len(),
        ) + page_label_spec(cfg, page),
        footer_line_spec(doc, cfg, page).len() == take_left(
            authors_left_spec(doc),
            cfg.page_width - page_label_spec(cfg, page).len(),
        ).len() + page_label_spec(cfg, page).len(),
        footer_line_spec(doc, cfg, page).skip(
            footer_line_spec(doc, cfg, page).len() - page_label_spec(cfg, page).len(),
        ) == page_label_spec(cfg, page),
{
    let left = take_left(authors_left_spec(doc), cfg.page_width - page_label_spec(cfg, page).len());
    let right = page_label_spec(cfg, page);
    assert((left + right).skip(left.len() as int) =~= right);
}

/// Otherwise the middle is padded with spaces to exactly the width.
pub proof fn lemma_footer_padded(doc: Document, cfg: Config, page: int)
    requires
        authors_left_spec(doc).len() + page_label_spec(cfg, page).len() < cfg.page_width,
    ensures
        footer_line_spec(doc, cfg, page).len() == cfg.page_width,
{
}

pub proof fn lemma_page_label_clean(cfg: Config, page: int)
    ensures
        clean(page_label_spec(cfg, page)),
{
    lemma_roman_clean(page);
    lemma_dec_clean(page);
    reveal_strlit("[Page ");
    reveal_strlit("]");
    if cfg.footer_style == FooterStyle::Bracketed && page >= 1 {
        lemma_clean_concat("[Page "@, page_label_bare(cfg, page));
        lemma_clean_concat("[Page "@ + page_label_bare(cfg, page), "]"@);
    }
}

pub proof fn lemma_footer_clean(doc: Document, cfg: Config, page: int)
    requires
        doc.wf(),
    ensures
        clean(footer_line_spec(doc, cfg, page)),
{
    let parts = Seq::new(doc.authors@.len(), |i: int| take_left(doc.authors@[i].last_name@, 12));
    assert forall|i: int| 0 <= i < parts.len() implies clean(#[trigger] parts[i]) by {
        assert(doc.authors@[i].wf());
        lemma_take_left_clean(doc.authors@[i].last_name@, 12);
    }
    reveal_strlit(", ");
    lemma_join_clean(parts, ", "@);
    lemma_page_label_clean(cfg, page);
    let left = authors_left_spec(doc);
    let right = page_label_spec(cfg, page);
    if left.len() + right.len() >= cfg.page_width {
        lemma_take_left_clean(left, cfg.page_width - right.len());
        lemma_clean_concat(take_left(left, cfg.page_width - right.len()), right);
    } else {
        lemma_clean_concat(left, spaces(cfg.page_width - left.len() - right.len()));
        lemma_clean_concat(left + spaces(cfg.page_width - left.len() - right.len()), right);
    }
}

// ---------------------------------------------------------------------
// Header policy.
// ---------------------------------------------------------------------
/// `s` pushed to the right edge of a line of width `w`.
pub open spec fn rjust_spec(s: Seq<char>, w: int) -> Seq<char> {
    if s.len() >= w {
        s
    } else {
        spaces(w - s.len()) + s
    }
}

/// "Month Year" of the document date.
pub open spec fn month_year_spec(doc: Document) -> Seq<char> {
    month_name_spec(doc.date.month as int) + " "@ + dec_spec(doc.date.year as int)
}

/// The running header of page `page`: the date right-justified, the
/// title truncated to the page width, and one blank line; nothing on
/// pages below the policy threshold.
pub open spec fn header_lines_spec(doc: Document, cfg: Config, page: int) -> Seq<Seq<char>> {
    if header_on(cfg, page) {
        seq![
            rjust_spec(month_year_spec(doc), cfg.page_width as int),
            take_left(doc.title@, cfg.page_width as int),
            Seq::<char>::empty(),
        ]
    } else {
        Seq::empty()
    }
}

pub proof fn lemma_header_clean(doc: Document, cfg: Config, page: int)
    requires
        doc.wf(),
    ensures
        forall|i: int|
            0 <= i < header_lines_spec(doc, cfg, page).len() ==> clean(
                #[trigger] header_lines_spec(doc, cfg, page)[i],
            ),
{
    if header_on(cfg, page) {
        lemma_month_clean(doc.date.month as int);
        lemma_dec_clean(doc.date.year as int);
        reveal_strlit(" ");
        lemma_clean_concat(month_name_spec(doc.date.month as int), " "@);
        lemma_clean_concat(month_name_spec(doc.date.month as int) + " "@, dec_spec(
            doc.date.year as int,
        ));
        let my = month_year_spec(doc);
        lemma_clean_concat(spaces(cfg.page_width - my.len()), my);
        lemma_take_left_clean(doc.title@, cfg.page_width as int);
        let lines = header_lines_spec(doc, cfg, page);
        assert(clean(lines[0]));
        assert(clean(lines[1]));
        assert(clean(lines[2]));
    }
}

// ---------------------------------------------------------------------
// Model transitions above the raw pager operations.
// ---------------------------------------------------------------------
/// Appending each line of `ts` in turn, without page bookkeeping.
pub open spec fn m_append_each(m: PagerModel, ts: Seq<Seq<char>>) -> PagerModel
    decreases ts.len(),
{
    if ts.len() == 0 {
        m
    } else {
        m_append_each(m_append(m, ts[0]), ts.drop_first())
    }
}

/// Closing the current page: pad its content area, write its footer,
/// and move past the form feed.  Writes no header; section boundaries
/// use this directly.
pub open spec fn m_close_page(doc: Document, cfg: Config, m: PagerModel) -> PagerModel {
    let padded = m_pad(m, content_cap(cfg));
    let closed = if footer_rows(cfg) == 1 {
        m_append(padded, footer_line_spec(doc, cfg, m.page))
    } else {
        padded
    };
    m_force(closed)
}

/// A soft page break: close the current page with its footer, then
/// write the header of the new page.
pub open spec fn m_soft_break(doc: Document, cfg: Config, m: PagerModel) -> PagerModel {
    let turned = m_close_page(doc, cfg, m);
    m_append_each(turned, header_lines_spec(doc, cfg, turned.page))
}

/// Emitting one line of flowing content: a soft break first whenever
/// the content area is full.
pub open spec fn m_push(doc: Document, cfg: Config, m: PagerModel, t: Seq<char>) -> PagerModel {
    if m.cur.len() >= content_cap(cfg) {
        m_append(m_soft_break(doc, cfg, m), t)
    } else {
        m_append(m, t)
    }
}

/// Emitting each line of `ts` in turn as flowing content.
pub open spec fn m_push_each(doc: Document, cfg: Config, m: PagerModel, ts: Seq<Seq<char>>) -> PagerModel
    decreases ts.len(),
{
    if ts.len() == 0 {
        m
    } else {
        m_push_each(doc, cfg, m_push(doc, cfg, m, ts[0]), ts.drop_first())
    }
}

/// `n` blank lines of flowing content.
pub open spec fn m_blanks(doc: Document, cfg: Config, m: PagerModel, n: int) -> PagerModel {
    m_push_each(
        doc,
        cfg,
        m,
        Seq::new(
            if n < 0 {
                0
            } else {
                n as nat
            },
            |i: int| Seq::<char>::empty(),
        ),
    )
}

/// `t` centered on the page width by its display width, padding on the
/// left with half the slack rounded up.
pub open spec fn center_spec(cfg: Config, t: Seq<char>) -> Seq<char> {
    spaces(crate::text::center_pad(cfg.page_width as int, display_width(t) as int)) + t
}

// ---------------------------------------------------------------------
// Free executable helpers shared by the renderer's stages.
// ---------------------------------------------------------------------
/// The footer's page label for page `page`.
pub fn page_label_string(cfg: &Config, page: i64) -> (r: String)
    ensures
        r@ == page_label_spec(*cfg, page as int),
        clean(r@),
{
    proof {
        lemma_page_label_clean(*cfg, page as int);
    }
    let bare: String = if page < 1 {
        String::new()
    } else if page as u128 <= cfg.roman_pages as u128 {
        roman_lower(page as u128)
    } else {
        decimal_string(page as u128)
    };
    match cfg.footer_style {
        FooterStyle::Bare => bare,
        FooterStyle::Bracketed => {
            if page < 1 {
                String::new()
            } else {
                let mut r = "[Page ".to_owned();
                r.append(bare.as_str());
                r.append("]");
                r
            }
        },
    }
}

/// Builds the footer line for page `page`.
pub fn footer_string(doc: &Document, cfg: &Config, page: i64) -> (r: String)
    requires
        doc.wf(),
        cfg.wf(),
    ensures
        r@ == footer_line_spec(*doc, *cfg, page as int),
        clean(r@),
{
    proof {
        lemma_footer_clean(*doc, *cfg, page as int);
    }
    let ghost parts = Seq::new(
        doc.authors@.len(),
        |i: int| take_left(doc.authors@[i].last_name@, 12),
    );
    let mut left = String::new();
    let mut i: usize = 0;
    while i < doc.authors.len()
        invariant
            i <= doc.authors@.len(),
            parts == Seq::new(
                doc.authors@.len(),
                |j: int| take_left(doc.authors@[j].last_name@, 12),
            ),
            left@ == join_with(parts.take(i as int), ", "@),
        decreases doc.authors@.len() - i,
    {
        let part = crate::text::abbreviate(doc.authors[i].last_name.as_str(), 12);
        if i > 0 {
            left.append(", ");
        }
        left.append(part.as_str());
        proof {
            if i == 0 {
                assert(parts.take(1) =~= seq![parts[0]]);
                assert(left@ =~= join_with(parts.take(1), ", "@));
            } else {
                lemma_join_snoc(parts, ", "@, i as int);
                assert(left@ =~= join_with(parts.take(i + 1), ", "@));
            }
        }
        i = i + 1;
    }
    proof {
        assert(parts.take(doc.authors@.len() as int) =~= parts);
        assert(left@ == authors_left_spec(*doc));
    }
    let label = page_label_string(cfg, page);
    let llen = left.as_str().unicode_len();
    let rlen = label.as_str().unicode_len();
    let w = cfg.page_width;
    if rlen >= w || llen >= w - rlen {
        let room: usize = if rlen <= w {
            w - rlen
        } else {
            0
        };
        let mut r = truncate_to_width_left(left.as_str(), room);
        r.append(label.as_str());
        proof {
            assert(take_left(left@, room as int) =~= take_left(left@, w - rlen));
        }
        r
    } else {
        let mut r = left;
        let pad = make_spaces(w - llen - rlen);
        r.append(pad.as_str());
        r.append(label.as_str());
        r
    }
}

/// Builds the header lines for page `page` (empty below the policy
/// threshold).
pub fn header_strings(doc: &Document, cfg: &Config, page: i64) -> (r: Vec<String>)
    requires
        doc.wf(),
        cfg.wf(),
    ensures
        r.deep_view() == header_lines_spec(*doc, *cfg, page as int),
        forall|i: int| 0 <= i < r.deep_view().len() ==> clean(#[trigger] r.deep_view()[i]),
{
    proof {
        lemma_header_clean(*doc, *cfg, page as int);
    }
    let mut r: Vec<String> = Vec::new();
    if cfg.page_height >= 5 && page >= cfg.header_start {
        let mut my = month_name(doc.date.month).to_owned();
        my.append(" ");
        let year = decimal_string(doc.date.year as u128);
        my.append(year.as_str());
        let mylen = my.as_str().unicode_len();
        let line0 = if mylen >= cfg.page_width {
            my
        } else {
            let mut sp = make_spaces(cfg.page_width - mylen);
            sp.append(my.as_str());
            sp
        };
        let line1 = truncate_to_width_left(doc.title.as_str(), cfg.page_width);
        r.push(line0);
        r.push(line1);
        r.push(String::new());
        proof {
            assert(r.deep_view() =~= header_lines_spec(*doc, *cfg, page as int));
        }
    } else {
        proof {
            assert(r.deep_view() =~= header_lines_spec(*doc, *cfg, page as int));
        }
    }
    r
}

// ---------------------------------------------------------------------
// List ordinal generation.
// ---------------------------------------------------------------------
/// The label of the item at `idx` in an ordered list starting at
/// `start`: decimal labels count from `start + 1`; letter labels wrap
/// around the alphabet with no multi-letter overflow; roman labels use
/// the same numeral routine as the footer.
pub open spec fn ordinal_spec(style: OrderedListType, start: int, idx: int) -> Seq<char>
    recommends
        start >= 0,
        idx >= 0,
{
    match style {
        OrderedListType::LowerCaseLetters => seq![(((97 + ((start + idx) % 26)) as u8) as char)],
        OrderedListType::UpperCaseLetters => seq![(((65 + ((start + idx) % 26)) as u8) as char)],
        OrderedListType::DecimalNumbers => dec_spec(start + idx + 1),
        OrderedListType::LowercaseRomanNumerals => roman_lower_spec(start + idx + 1),
        OrderedListType::UppercaseRomanNumerals => roman_upper_spec(start + idx + 1),
    }
}

/// The label of a list item: a bullet in unordered lists, the ordinal
/// in ordered ones.
pub open spec fn item_label_spec(style: Option<OrderedListType>, start: int, idx: int) -> Seq<
    char,
> {
    match style {
        Option::None => "*"@,
        Option::Some(st) => ordinal_spec(st, start, idx),
    }
}

/// Builds the ordinal label for one list item.
pub fn ordinal_label(index: usize, start: u8, style: &OrderedListType) -> (r: String)
    ensures
        r@ == ordinal_spec(*style, start as int, index as int),
        clean(r@),
{
    proof {
        lemma_dec_clean(start as int + index as int + 1);
        lemma_roman_clean(start as int + index as int + 1);
    }
    match style {
        OrderedListType::LowerCaseLetters => {
            let rem: u128 = ((start as u128) + (index as u128)) % 26;
            let ch: char = ((97u8 + (rem as u8)) as char);
            let mut r = String::new();
            r.push(ch);
            proof {
                assert(rem as int == (start as int + index as int) % 26);
                assert(r@ =~= ordinal_spec(*style, start as int, index as int));
                assert(ch != '\n' && ch != '\x0C');
            }
            r
        },
        OrderedListType::UpperCaseLetters => {
            let rem: u128 = ((start as u128) + (index as u128)) % 26;
            let ch: char = ((65u8 + (rem as u8)) as char);
            let mut r = String::new();
            r.push(ch);
            proof {
                assert(rem as int == (start as int + index as int) % 26);
                assert(r@ =~= ordinal_spec(*style, start as int, index as int));
                assert(ch != '\n' && ch != '\x0C');
            }
            r
        },
        OrderedListType::DecimalNumbers => decimal_string(
            (start as u128) + (index as u128) + 1,
        ),
        OrderedListType::LowercaseRomanNumerals => roman_lower(
            (start as u128) + (index as u128) + 1,
        ),
        OrderedListType::UppercaseRomanNumerals => roman_upper(
            (start as u128) + (index as u128) + 1,
        ),
    }
}

// ---------------------------------------------------------------------
// Cover-page text assembly.
// ---------------------------------------------------------------------
/// One optional text field as zero or one join parts.
pub open spec fn opt_part(o: Option<String>) -> Seq<Seq<char>> {
    match o {
        Option::Some(s) => seq![s@],
        Option::None => Seq::empty(),
    }
}

/// The parts of an author's cover line, present fields only: title,
/// first name, middle name, surname, affiliation name.
pub open spec fn author_parts(a: Author) -> Seq<Seq<char>> {
    opt_part(a.title) + opt_part(a.first_name) + opt_part(a.middle_name) + seq![a.last_name@]
        + (match a.affiliation {
        Option::Some(inst) => seq![inst.name@],
        Option::None => Seq::<Seq<char>>::empty(),
    })
}

/// An author's cover line: the present parts joined by single spaces.
pub open spec fn author_line_spec(a: Author) -> Seq<char> {
    join_with(author_parts(a), " "@)
}

/// The cover date line: "day monthname year".
pub open spec fn date_line_spec(d: crate::Date) -> Seq<char> {
    dec_spec(d.day as int) + " "@ + month_name_spec(d.month as int) + " "@ + dec_spec(
        d.year as int,
    )
}

/// Joins strings with a separator.
pub fn join_strings(parts: &Vec<String>, sep: &str) -> (r: String)
    ensures
        r@ == join_with(parts.deep_view(), sep@),
{
    let mut r = String::new();
    let mut i: usize = 0;
    while i < parts.len()
        invariant
            i <= parts.deep_view().len(),
            parts.deep_view().len() == parts@.len(),
            r@ == join_with(parts.deep_view().take(i as int), sep@),
        decreases parts@.len() - i,
    {
        if i > 0 {
            r.append(sep);
        }
        r.append(parts[i].as_str());
        proof {
            let dv = parts.deep_view();
            assert(dv[i as int] == parts@[i as int]@);
            if i == 0 {
                assert(dv.take(1) =~= seq![dv[0]]);
                assert(r@ =~= join_with(dv.take(1), sep@));
            } else {
                lemma_join_snoc(dv, sep@, i as int);
                assert(r@ =~= join_with(dv.take(i + 1), sep@));
            }
        }
        i = i + 1;
    }
    proof {
        assert(parts.deep_view().take(parts.deep_view().len() as int) =~= parts.deep_view());
    }
    r
}

/// Builds an author's cover line.
pub fn author_line(a: &Author) -> (r: String)
    requires
        a.wf(),
    ensures
        r@ == author_line_spec(*a),
        clean(r@),
{
    let mut parts: Vec<String> = Vec::new();
    if let Option::Some(t) = &a.title {
        parts.push(t.clone());
    }
    proof {
        assert(parts.deep_view() =~= opt_part(a.title));
    }
    if let Option::Some(f) = &a.first_name {
        parts.push(f.clone());
    }
    proof {
        assert(parts.deep_view() =~= opt_part(a.title) + opt_part(a.first_name));
    }
    if let Option::Some(mn) = &a.middle_name {
        parts.push(mn.clone());
    }
    proof {
        assert(parts.deep_view() =~= opt_part(a.title) + opt_part(a.first_name) + opt_part(
            a.middle_name,
        ));
    }
    parts.push(a.last_name.clone());
    if let Option::Some(aff) = &a.affiliation {
        parts.push(aff.name.clone());
    }
    proof {
        assert(parts.deep_view() =~= author_parts(*a));
    }
    let r = join_strings(&parts, " ");
    proof {
        assert forall|i: int| 0 <= i < author_parts(*a).len() implies clean(
            #[trigger] author_parts(*a)[i],
        ) by {}
        reveal_strlit(" ");
        lemma_join_clean(author_parts(*a), " "@);
    }
    r
}

/// Builds the cover date line.
pub fn date_line(d: &crate::Date) -> (r: String)
    requires
        d.wf(),
    ensures
        r@ == date_line_spec(*d),
        clean(r@),
{
    let mut r = decimal_string(d.day as u128);
    r.append(" ");
    r.append(month_name(d.month));
    r.append(" ");
    let y = decimal_string(d.year as u128);
    r.append(y.as_str());
    proof {
        lemma_dec_clean(d.day as int);
        lemma_dec_clean(d.year as int);
        lemma_month_clean(d.month as int);
        reveal_strlit(" ");
        lemma_clean_concat(dec_spec(d.day as int), " "@);
        lemma_clean_concat(dec_spec(d.day as int) + " "@, month_name_spec(d.month as int));
        lemma_clean_concat(
            dec_spec(d.day as int) + " "@ + month_name_spec(d.month as int),
            " "@,
        );
        lemma_clean_concat(
            dec_spec(d.day as int) + " "@ + month_name_spec(d.month as int) + " "@,
            dec_spec(d.year as int),
        );
    }
    r
}

// ---------------------------------------------------------------------
// The renderer.
// ---------------------------------------------------------------------
/// The starting pager state.
pub open spec fn m_init() -> PagerModel {
    PagerModel { page: -1, done: Seq::empty(), cur: Seq::empty() }
}

/// Drives one pager over one document: all document-level layout
/// policy lives here, while the pager only keeps page bookkeeping.
pub struct Render<'a> {
    /// The document being rendered (never mutated).
    pub document: &'a Document,
    /// The layout configuration.
    pub config: Config,
    /// The page-buffer state machine all writes go through.
    pub pager: Pager,
    /// Whether a top-level headline has been rendered yet; the first
    /// one does not force a page break.
    pub headline_seen: bool,
}

impl<'a> Render<'a> {
    /// The renderer invariant: a well-formed pager over a well-formed
    /// document and configuration.
    pub open spec fn wf(self) -> bool {
        &&& self.pager.inv()
        &&& crate::pager::model_wf(self.pager@, self.config)
        &&& self.pager.page_height == self.config.page_height
        &&& self.config.wf()
        &&& self.document.wf()
    }

    /// Starts a render: a fresh pager, plus the header of the starting
    /// page if the policy asks for one there.
    pub fn new(config: Config, document: &'a Document) -> (r: Render<'a>)
        requires
            config.wf(),
            document.wf(),
        ensures
            r.wf(),
            r.document == document,
            r.config == config,
            r.headline_seen == false,
            r.pager@ == m_append_each(m_init(), header_lines_spec(*document, config, -1)),
    {
        let pager = Pager::new(&config);
        let mut r = Render { document, config, pager, headline_seen: false };
        proof {
            assert(r.pager@ == m_init());
        }
        r.write_header_lines();
        r
    }

    /// Writes the running header of the current page, when policy asks
    /// for one.  Only meaningful at the top of a fresh page.
    #[verifier::loop_isolation(false)]
    fn write_header_lines(&mut self)
        requires
            old(self).wf(),
            old(self).pager@.cur.len() == 0,
        ensures
            final (self).wf(),
            final (self).document == old(self).document,
            final (self).config == old(self).config,
            final (self).headline_seen == old(self).headline_seen,
            final (self).pager@ == m_append_each(
                old(self).pager@,
                header_lines_spec(*old(self).document, old(self).config, old(self).pager@.page),
            ),
            final (self).pager@.cur.len() < content_cap(old(self).config),
            final (self).pager@.page == old(self).pager@.page,
            final (self).pager@.done == old(self).pager@.done,
    {
        let doc = self.document;
        let hdr = header_strings(doc, &self.config, self.pager.page);
        let ghost m0 = self.pager@;
        let ghost hl = header_lines_spec(*doc, self.config, m0.page);
        proof {
            assert(hl.skip(0) =~= hl);
        }
        let mut i: usize = 0;
        while i < hdr.len()
            invariant
                old(self).wf(),
                self.pager.inv(),
                self.document == old(self).document,
                self.config == old(self).config,
                self.headline_seen == old(self).headline_seen,
                self.pager.page_height == old(self).pager.page_height,
                i <= hdr.deep_view().len(),
                hdr.deep_view().len() == hdr@.len(),
                hdr.deep_view() == hl,
                m_append_each(m0, hl) == m_append_each(self.pager@, hl.skip(i as int)),
                self.pager@.cur.len() == i,
                self.pager@.page == m0.page,
                self.pager@.done == m0.done,
                crate::pager::lines_clean(self.pager@.cur),
                forall|j: int| 0 <= j < hl.len() ==> clean(#[trigger] hl[j]),
            decreases hdr@.len() - i,
        {
            proof {
                assert(hl.skip(i as int)[0] == hl[i as int]);
            }
            self.pager.append_line(hdr[i].as_str());
            proof {
                crate::text::lemma_translit_clean(hl[i as int]);
                assert(hl.skip(i as int).drop_first() =~= hl.skip(i + 1));
            }
            i = i + 1;
        }
        proof {
            assert(hl.skip(i as int) =~= Seq::<Seq<char>>::empty());
            assert(m_append_each(self.pager@, hl.skip(i as int)) == self.pager@);
            if header_on(self.config, m0.page) {
                assert(self.pager@.cur.len() == 3);
                assert(self.config.page_height >= 5);
            } else {
                assert(self.pager@.cur.len() == 0);
            }
        }
    }

    /// A soft page break: pads the content area, writes the closing
    /// footer, turns the page, and writes the new page's header.
    pub fn page_break(&mut self)
        requires
            old(self).wf(),
        ensures
            final (self).wf(),
            final (self).document == old(self).document,
            final (self).config == old(self).config,
            final (self).headline_seen == old(self).headline_seen,
            final (self).pager@ == m_soft_break(
                *old(self).document,
                old(self).config,
                old(self).pager@,
            ),
            final (self).pager@.cur.len() < content_cap(old(self).config),
    {
        self.new_page();
        self.write_header_lines();
    }

    /// Emits one line of flowing content, breaking the page first when
    /// its content area is full.
    pub fn push_line(&mut self, line: &str)
        requires
            old(self).wf(),
            clean(line@),
        ensures
            final (self).wf(),
            final (self).document == old(self).document,
            final (self).config == old(self).config,
            final (self).headline_seen == old(self).headline_seen,
            final (self).pager@ == m_push(
                *old(self).document,
                old(self).config,
                old(self).pager@,
                line@,
            ),
    {
        let h = self.config.page_height;
        let cap: usize = if h >= 2 {
            h - 1
        } else {
            h
        };
        proof {
            assert(cap as int == content_cap(self.config));
        }
        if self.pager.line_in_page >= cap {
            self.page_break();
        }
        self.pager.append_line(line);
        proof {
            crate::text::lemma_translit_clean(line@);
        }
    }

    /// `n` blank lines of flowing content.
    #[verifier::loop_isolation(false)]
    pub fn push_blank_lines(&mut self, n: usize)
        requires
            old(self).wf(),
        ensures
            final (self).wf(),
            final (self).document == old(self).document,
            final (self).config == old(self).config,
            final (self).headline_seen == old(self).headline_seen,
            final (self).pager@ == m_blanks(
                *old(self).document,
                old(self).config,
                old(self).pager@,
                n as int,
            ),
    {
        let ghost doc = *self.document;
        let ghost cfg = self.config;
        let ghost m0 = self.pager@;
        let ghost blanks = Seq::new(n as nat, |i: int| Seq::<char>::empty());
        proof {
            assert(blanks.skip(0) =~= blanks);
        }
        let mut i: usize = 0;
        while i < n
            invariant
                self.wf(),
                self.document == old(self).document,
                self.config == old(self).config,
                self.headline_seen == old(self).headline_seen,
                i <= n,
                blanks == Seq::new(n as nat, |k: int| Seq::<char>::empty()),
                m_push_each(doc, cfg, m0, blanks) == m_push_each(
                    doc,
                    cfg,
                    self.pager@,
                    blanks.skip(i as int),
                ),
            decreases n - i,
        {
            let ghost mprev = self.pager@;
            proof {
                reveal_strlit("");
                assert(""@ =~= Seq::<char>::empty());
            }
            self.push_line("");
            proof {
                assert(blanks.skip(i as int)[0] =~= Seq::<char>::empty());
                assert(self.pager@ == m_push(doc, cfg, mprev, Seq::<char>::empty()));
                assert(blanks.skip(i as int).drop_first() =~= blanks.skip(i + 1));
                assert(m_push_each(doc, cfg, mprev, blanks.skip(i as int)) == m_push_each(
                    doc,
                    cfg,
                    self.pager@,
                    blanks.skip(i + 1),
                ));
            }
            i = i + 1;
        }
        proof {
            assert(blanks.skip(n as int) =~= Seq::<Seq<char>>::empty());
        }
    }

    /// Emits `text` centered on the page width by its display width.
    pub fn push_centered(&mut self, text: &str)
        requires
            old(self).wf(),
            clean(text@),
        ensures
            final (self).wf(),
            final (self).document == old(self).document,
            final (self).config == old(self).config,
            final (self).headline_seen == old(self).headline_seen,
            final (self).pager@ == m_push(
                *old(self).document,
                old(self).config,
                old(self).pager@,
                center_spec(old(self).config, text@),
            ),
    {
        let w = self.config.page_width;
        let tw = text_width(text);
        let pad: usize = if tw <= w {
            (((w - tw) as u128 + 1) / 2) as usize
        } else {
            0
        };
        proof {
            assert(pad as int == crate::text::center_pad(w as int, display_width(text@) as int));
        }
        let mut line = make_spaces(pad);
        line.append(text);
        proof {
            crate::text::lemma_clean_spaces(pad as int);
            lemma_clean_concat(spaces(pad as int), text@);
        }
        self.push_line(line.as_str());
    }

    /// Closes the current page — padding its content area and writing
    /// its footer — and turns it without writing a header: the
    /// unconditional boundary between one section and the next.
    pub fn new_page(&mut self)
        requires
            old(self).wf(),
        ensures
            final (self).wf(),
            final (self).document == old(self).document,
            final (self).config == old(self).config,
            final (self).headline_seen == old(self).headline_seen,
            final (self).pager@ == m_close_page(
                *old(self).document,
                old(self).config,
                old(self).pager@,
            ),
            final (self).pager@.cur.len() == 0,
    {
        let doc = self.document;
        let h = self.config.page_height;
        let cap: usize = if h >= 2 {
            h - 1
        } else {
            h
        };
        proof {
            assert(cap as int == content_cap(self.config));
        }
        self.pager.pad_to(cap);
        if h >= 2 {
            let f = footer_string(doc, &self.config, self.pager.page);
            self.pager.append_line(f.as_str());
            proof {
                crate::text::lemma_translit_clean(f@);
            }
        }
        let ghost closed = self.pager@;
        self.pager.force_page_break();
        proof {
            assert(self.pager@.done == old(self).pager@.done.push(closed.cur));
            assert(closed.cur.len() == self.config.page_height);
        }
    }
}

// ---------------------------------------------------------------------
// Document sections.
// ---------------------------------------------------------------------
/// The cover sequence: vertical padding, centered title and subtitle,
/// more padding, one centered line per author, a two-line separator,
/// centered
/// institution names, and the centered date.
pub open spec fn cover_spec(doc: Document, cfg: Config, m: PagerModel) -> PagerModel {
    let m1 = m_blanks(doc, cfg, m, cfg.page_height as int / 7);
    let m2 = m_push(doc, cfg, m1, center_spec(cfg, doc.title@));
    let m3 = match doc.subtitle {
        Option::Some(s) => m_push(doc, cfg, m_blanks(doc, cfg, m2, 1), center_spec(cfg, s@)),
        Option::None => m2,
    };
    let m4 = m_blanks(doc, cfg, m3, cfg.page_height as int / 8 * 4);
    let m5 = m_push_each(
        doc,
        cfg,
        m4,
        Seq::new(doc.authors@.len(), |i: int| center_spec(cfg, author_line_spec(doc.authors@[i]))),
    );
    let m6 = m_blanks(doc, cfg, m5, 2);
    let m7 = m_push_each(
        doc,
        cfg,
        m6,
        Seq::new(doc.institutions@.len(), |i: int| center_spec(cfg, doc.institutions@[i].name@)),
    );
    m_push(doc, cfg, m7, center_spec(cfg, date_line_spec(doc.date)))
}

/// The abstract section: a centered heading, one blank line, the
/// abstract wrapped at the page width, one blank line.
pub open spec fn abstract_spec(doc: Document, cfg: Config, m: PagerModel) -> PagerModel {
    let m1 = m_push(doc, cfg, m, center_spec(cfg, "ABSTRACT"@));
    let m2 = m_blanks(doc, cfg, m1, 1);
    let m3 = m_push_each(doc, cfg, m2, wrap_of(doc.abstract_text@, cfg.page_width as int));
    m_blanks(doc, cfg, m3, 1)
}

/// The license section, when a license is present: a centered heading,
/// one blank line, every wrapped license line centered, one blank line.
pub open spec fn license_spec(doc: Document, cfg: Config, m: PagerModel) -> PagerModel {
    match doc.license {
        Option::None => m,
        Option::Some(lic) => {
            let m1 = m_push(doc, cfg, m, center_spec(cfg, "LICENSE"@));
            let m2 = m_blanks(doc, cfg, m1, 1);
            let wrapped = wrap_of(lic@, cfg.page_width as int);
            let m3 = m_push_each(
                doc,
                cfg,
                m2,
                Seq::new(wrapped.len(), |i: int| center_spec(cfg, wrapped[i])),
            );
            m_blanks(doc, cfg, m3, 1)
        },
    }
}

/// The repeated title block that opens the numbered body.
pub open spec fn title_block_spec(doc: Document, cfg: Config, m: PagerModel) -> PagerModel {
    let m1 = m_push(doc, cfg, m, center_spec(cfg, doc.title@));
    let m2 = match doc.subtitle {
        Option::Some(s) => m_push(doc, cfg, m_blanks(doc, cfg, m1, 1), center_spec(cfg, s@)),
        Option::None => m1,
    };
    m_blanks(doc, cfg, m2, 1)
}

impl<'a> Render<'a> {
    /// Renders the cover sequence.
    #[verifier::loop_isolation(false)]
    pub fn render_cover_pages(&mut self)
        requires
            old(self).wf(),
        ensures
            final (self).wf(),
            final (self).document == old(self).document,
            final (self).config == old(self).config,
            final (self).headline_seen == old(self).headline_seen,
            final (self).pager@ == cover_spec(
                *old(self).document,
                old(self).config,
                old(self).pager@,
            ),
    {
        let ghost dg = *old(self).document;
        let ghost cfg = old(self).config;
        let doc = self.document;
        let h = self.config.page_height;
        self.push_blank_lines(h / 7);
        self.push_centered(doc.title.as_str());
        if let Option::Some(sub) = &doc.subtitle {
            self.push_blank_lines(1);
            self.push_centered(sub.as_str());
        }
        self.push_blank_lines(h / 8 * 4);
        let ghost m4 = self.pager@;
        let ghost alines = Seq::new(
            dg.authors@.len(),
            |i: int| center_spec(cfg, author_line_spec(dg.authors@[i])),
        );
        proof {
            assert(alines.skip(0) =~= alines);
        }
        let mut i: usize = 0;
        while i < doc.authors.len()
            invariant
                self.wf(),
                self.document == old(self).document,
                self.config == old(self).config,
                self.headline_seen == old(self).headline_seen,
                i <= dg.authors@.len(),
                m_push_each(dg, cfg, m4, alines) == m_push_each(
                    dg,
                    cfg,
                    self.pager@,
                    alines.skip(i as int),
                ),
            decreases dg.authors@.len() - i,
        {
            let ghost mprev = self.pager@;
            proof {
                assert(dg.authors@[i as int].wf());
            }
            let al = author_line(&doc.authors[i]);
            self.push_centered(al.as_str());
            proof {
                assert(alines.skip(i as int)[0] == alines[i as int]);
                assert(self.pager@ == m_push(dg, cfg, mprev, alines[i as int]));
                assert(alines.skip(i as int).drop_first() =~= alines.skip(i + 1));
            }
            i = i + 1;
        }
        proof {
            assert(alines.skip(dg.authors@.len() as int) =~= Seq::<Seq<char>>::empty());
        }
        self.push_blank_lines(2);
        let ghost m6 = self.pager@;
        let ghost ilines = Seq::new(
            dg.institutions@.len(),
            |i: int| center_spec(cfg, dg.institutions@[i].name@),
        );
        proof {
            assert(ilines.skip(0) =~= ilines);
        }
        let mut k: usize = 0;
        while k < doc.institutions.len()
            invariant
                self.wf(),
                self.document == old(self).document,
                self.config == old(self).config,
                self.headline_seen == old(self).headline_seen,
                k <= dg.institutions@.len(),
                m_push_each(dg, cfg, m6, ilines) == m_push_each(
                    dg,
                    cfg,
                    self.pager@,
                    ilines.skip(k as int),
                ),
            decreases dg.institutions@.len() - k,
        {
            let ghost mprev = self.pager@;
            proof {
                assert(clean(dg.institutions@[k as int].name@));
            }
            self.push_centered(doc.institutions[k].name.as_str());
            proof {
                assert(ilines.skip(k as int)[0] == ilines[k as int]);
                assert(self.pager@ == m_push(dg, cfg, mprev, ilines[k as int]));
                assert(ilines.skip(k as int).drop_first() =~= ilines.skip(k + 1));
            }
            k = k + 1;
        }
        proof {
            assert(ilines.skip(dg.institutions@.len() as int) =~= Seq::<Seq<char>>::empty());
        }
        let dl = date_line(&doc.date);
        self.push_centered(dl.as_str());
    }

    /// Renders the abstract section.
    #[verifier::loop_isolation(false)]
    pub fn write_abstract(&mut self)
        requires
            old(self).wf(),
        ensures
            final (self).wf(),
            final (self).document == old(self).document,
            final (self).config == old(self).config,
            final (self).headline_seen == old(self).headline_seen,
            final (self).pager@ == abstract_spec(
                *old(self).document,
                old(self).config,
                old(self).pager@,
            ),
    {
        let ghost dg = *old(self).document;
        let ghost cfg = old(self).config;
        let doc = self.document;
        proof {
            reveal_strlit("ABSTRACT");
            assert(clean("ABSTRACT"@));
        }
        self.push_centered("ABSTRACT");
        self.push_blank_lines(1);
        let lines = crate::textops::wrap_text(doc.abstract_text.as_str(), self.config.page_width);
        let ghost ls = wrap_of(dg.abstract_text@, cfg.page_width as int);
        let ghost m2 = self.pager@;
        proof {
            assert(ls.skip(0) =~= ls);
        }
        let mut i: usize = 0;
        while i < lines.len()
            invariant
                self.wf(),
                self.document == old(self).document,
                self.config == old(self).config,
                self.headline_seen == old(self).headline_seen,
                i <= lines@.len(),
                lines.deep_view() == ls,
                forall|j: int| 0 <= j < ls.len() ==> clean(#[trigger] ls[j]),
                m_push_each(dg, cfg, m2, ls) == m_push_each(dg, cfg, self.pager@, ls.skip(i as int)),
            decreases lines@.len() - i,
        {
            let ghost mprev = self.pager@;
            self.push_line(lines[i].as_str());
            proof {
                assert(ls.skip(i as int)[0] == ls[i as int]);
                assert(lines@[i as int]@ == ls[i as int]);
                assert(self.pager@ == m_push(dg, cfg, mprev, ls[i as int]));
                assert(ls.skip(i as int).drop_first() =~= ls.skip(i + 1));
            }
            i = i + 1;
        }
        proof {
            assert(ls.skip(ls.len() as int) =~= Seq::<Seq<char>>::empty());
        }
        self.push_blank_lines(1);
    }

    /// Renders the license section, when a license is present.
    #[verifier::loop_isolation(false)]
    pub fn write_license(&mut self)
        requires
            old(self).wf(),
        ensures
            final (self).wf(),
            final (self).document == old(self).document,
            final (self).config == old(self).config,
            final (self).headline_seen == old(self).headline_seen,
            final (self).pager@ == license_spec(
                *old(self).document,
                old(self).config,
                old(self).pager@,
            ),
    {
        let ghost dg = *old(self).document;
        let ghost cfg = old(self).config;
        let doc = self.document;
        if let Option::Some(lic) = &doc.license {
            proof {
                reveal_strlit("LICENSE");
                assert(clean("LICENSE"@));
            }
            self.push_centered("LICENSE");
            self.push_blank_lines(1);
            let lines = crate::textops::wrap_text(lic.as_str(), self.config.page_width);
            let ghost wrapped = wrap_of(lic@, cfg.page_width as int);
            let ghost ls = Seq::new(wrapped.len(), |i: int| center_spec(cfg, wrapped[i]));
            let ghost m2 = self.pager@;
            proof {
                assert(ls.skip(0) =~= ls);
            }
            let mut i: usize = 0;
            while i < lines.len()
                invariant
                    self.wf(),
                    self.document == old(self).document,
                    self.config == old(self).config,
                    self.headline_seen == old(self).headline_seen,
                    i <= lines@.len(),
                    lines.deep_view() == wrapped,
                    ls == Seq::new(wrapped.len(), |j: int| center_spec(cfg, wrapped[j])),
                    forall|j: int| 0 <= j < wrapped.len() ==> clean(#[trigger] wrapped[j]),
                    m_push_each(dg, cfg, m2, ls) == m_push_each(
                        dg,
                        cfg,
                        self.pager@,
                        ls.skip(i as int),
                    ),
                decreases lines@.len() - i,
            {
                let ghost mprev = self.pager@;
                proof {
                    assert(lines@[i as int]@ == wrapped[i as int]);
                }
                self.push_centered(lines[i].as_str());
                proof {
                    assert(ls.skip(i as int)[0] == ls[i as int]);
                    assert(self.pager@ == m_push(dg, cfg, mprev, ls[i as int]));
                    assert(ls.skip(i as int).drop_first() =~= ls.skip(i + 1));
                }
                i = i + 1;
            }
            proof {
                assert(ls.skip(ls.len() as int) =~= Seq::<Seq<char>>::empty());
            }
            self.push_blank_lines(1);
        }
    }

    /// Renders the repeated title block at the top of the body.
    pub fn write_title_block(&mut self)
        requires
            old(self).wf(),
        ensures
            final (self).wf(),
            final (self).document == old(self).document,
            final (self).config == old(self).config,
            final (self).headline_seen == old(self).headline_seen,
            final (self).pager@ == title_block_spec(
                *old(self).document,
                old(self).config,
                old(self).pager@,
            ),
    {
        let doc = self.document;
        self.push_centered(doc.title.as_str());
        if let Option::Some(sub) = &doc.subtitle {
            self.push_blank_lines(1);
            self.push_centered(sub.as_str());
        }
        self.push_blank_lines(1);
    }
}

// ---------------------------------------------------------------------
// Body traversal.
// ---------------------------------------------------------------------
/// The lines of a top-level paragraph: each wrapped line behind `ti`
/// columns of indent.
pub open spec fn para_prefixed(lines: Seq<Seq<char>>, ti: int) -> Seq<Seq<char>> {
    Seq::new(lines.len(), |i: int| spaces(ti) + lines[i])
}

/// The lines of a labeled list item: the first wrapped line carries
/// the label at the list indent, continuation lines hang under the
/// item text.
pub open spec fn wc_item_lines(lines: Seq<Seq<char>>, ind: int, label: Seq<char>) -> Seq<
    Seq<char>,
> {
    Seq::new(
        lines.len(),
        |i: int|
            if i == 0 {
                spaces(ind) + label + seq![' '] + lines[0]
            } else {
                spaces(hang_indent(ind, label.len() as int)) + lines[i]
            },
    )
}

/// Rendering one content node at list indent `ind`; the second result
/// records whether a top-level headline has been rendered.
pub open spec fn wc_spec(
    doc: Document,
    cfg: Config,
    m: PagerModel,
    seen: bool,
    c: Content,
    ind: int,
) -> (PagerModel, bool)
    decreases c, 0int, 0int,
{
    match c {
        Content::Paragraph { text } => {
            let ti = bump2(ind);
            let lines = wrap_of(text@, sat_sub(cfg.page_width as int, ti));
            let m1 = m_push_each(doc, cfg, m, para_prefixed(lines, ti));
            (m_blanks(doc, cfg, m1, 1), seen)
        },
        Content::Headline { text, indent, position } => {
            if indent == 0 {
                let m0 = if seen {
                    m_soft_break(doc, cfg, m)
                } else {
                    m
                };
                let m1 = m_push(doc, cfg, m0, center_spec(cfg, upper_of(text@)));
                (m_blanks(doc, cfg, m1, 1), true)
            } else {
                let m1 = m_push(doc, cfg, m, spaces(indent as int) + text@);
                (m_blanks(doc, cfg, m1, 1), seen)
            }
        },
        Content::UnsortedList { contents, compact } => {
            let r = wc_items_spec(
                doc,
                cfg,
                m,
                seen,
                contents@,
                ind,
                compact,
                Option::None,
                0,
                0,
            );
            if !compact {
                (m_blanks(doc, cfg, r.0, 1), r.1)
            } else {
                r
            }
        },
        Content::OrderedList { contents, start, style, compact } => {
            let r = wc_items_spec(
                doc,
                cfg,
                m,
                seen,
                contents@,
                ind,
                compact,
                Option::Some(style),
                start as int,
                0,
            );
            if !compact {
                (m_blanks(doc, cfg, r.0, 1), r.1)
            } else {
                r
            }
        },
    }
}

/// Rendering one list item: a paragraph is wrapped behind its label
/// with a hanging indent; any other node recurses two columns deeper.
pub open spec fn wc_item_step(
    doc: Document,
    cfg: Config,
    m: PagerModel,
    seen: bool,
    item: Content,
    ind: int,
    style: Option<OrderedListType>,
    start: int,
    idx: int,
) -> (PagerModel, bool)
    decreases item, 1int, 0int,
{
    match item {
        Content::Paragraph { text } => {
            let label = item_label_spec(style, start, idx);
            let lw = sat_sub(cfg.page_width as int, hang_indent(ind, label.len() as int));
            let lines = wrap_of(text@, lw);
            (m_push_each(doc, cfg, m, wc_item_lines(lines, ind, label)), seen)
        },
        _ => wc_spec(doc, cfg, m, seen, item, bump2(ind)),
    }
}

/// Rendering the items of a list from `idx` on.  With `compact` set,
/// nothing stands between consecutive items; otherwise one blank line
/// follows each item.
pub open spec fn wc_items_spec(
    doc: Document,
    cfg: Config,
    m: PagerModel,
    seen: bool,
    items: Seq<Content>,
    ind: int,
    compact: bool,
    style: Option<OrderedListType>,
    start: int,
    idx: int,
) -> (PagerModel, bool)
    decreases items, items.len() - idx, 2int,
{
    if idx < 0 || idx >= items.len() {
        (m, seen)
    } else {
        let stepped = wc_item_step(doc, cfg, m, seen, items[idx], ind, style, start, idx);
        let sep = if !compact {
            (m_blanks(doc, cfg, stepped.0, 1), stepped.1)
        } else {
            stepped
        };
        wc_items_spec(doc, cfg, sep.0, sep.1, items, ind, compact, style, start, idx + 1)
    }
}

/// Rendering a run of top-level content nodes from `idx` on.
pub open spec fn wc_contents_spec(
    doc: Document,
    cfg: Config,
    m: PagerModel,
    seen: bool,
    items: Seq<Content>,
    idx: int,
) -> (PagerModel, bool)
    decreases items, items.len() - idx, 2int,
{
    if idx < 0 || idx >= items.len() {
        (m, seen)
    } else {
        let r = wc_spec(doc, cfg, m, seen, items[idx], 0);
        wc_contents_spec(doc, cfg, r.0, r.1, items, idx + 1)
    }
}

/// A compact list inserts nothing between consecutive items: the state
/// after one item is handed to the next item unchanged.
pub proof fn lemma_compact_no_blank_between_items(
    doc: Document,
    cfg: Config,
    m: PagerModel,
    seen: bool,
    items: Seq<Content>,
    ind: int,
    style: Option<OrderedListType>,
    start: int,
    idx: int,
)
    requires
        0 <= idx < items.len(),
    ensures
        wc_items_spec(doc, cfg, m, seen, items, ind, true, style, start, idx) == ({
            let stepped = wc_item_step(doc, cfg, m, seen, items[idx], ind, style, start, idx);
            wc_items_spec(doc, cfg, stepped.0, stepped.1, items, ind, true, style, start, idx + 1)
        }),
{
}

/// A non-compact list inserts exactly one blank line after each item,
/// and nothing else, before the next item begins.
pub proof fn lemma_one_blank_after_each_item(
    doc: Document,
    cfg: Config,
    m: PagerModel,
    seen: bool,
    items: Seq<Content>,
    ind: int,
    style: Option<OrderedListType>,
    start: int,
    idx: int,
)
    requires
        0 <= idx < items.len(),
    ensures
        wc_items_spec(doc, cfg, m, seen, items, ind, false, style, start, idx) == ({
            let stepped = wc_item_step(doc, cfg, m, seen, items[idx], ind, style, start, idx);
            wc_items_spec(
                doc,
                cfg,
                m_blanks(doc, cfg, stepped.0, 1),
                stepped.1,
                items,
                ind,
                false,
                style,
                start,
                idx + 1,
            )
        }),
{
}

/// The spec-level view of an optional borrowed numbering style.
pub open spec fn deref_style(style: Option<&OrderedListType>) -> Option<OrderedListType> {
    match style {
        Option::Some(st) => Option::Some(*st),
        Option::None => Option::None,
    }
}

impl<'a> Render<'a> {
    /// Renders one wrapped paragraph as a labeled list item.
    #[verifier::loop_isolation(false)]
    fn write_list_paragraph(&mut self, text: &str, list_indent: usize, label: &str)
        requires
            old(self).wf(),
            clean(text@),
            clean(label@),
        ensures
            final (self).wf(),
            final (self).document == old(self).document,
            final (self).config == old(self).config,
            final (self).headline_seen == old(self).headline_seen,
            final (self).pager@ == m_push_each(
                *old(self).document,
                old(self).config,
                old(self).pager@,
                wc_item_lines(
                    wrap_of(
                        text@,
                        sat_sub(
                            old(self).config.page_width as int,
                            hang_indent(list_indent as int, label@.len() as int),
                        ),
                    ),
                    list_indent as int,
                    label@,
                ),
            ),
    {
        let ghost dg = *old(self).document;
        let ghost cfg = old(self).config;
        let ll = label.unicode_len();
        let hang: usize = if list_indent < usize::MAX && ll <= usize::MAX - 1 - list_indent {
            list_indent + ll + 1
        } else {
            usize::MAX
        };
        proof {
            assert(hang as int == hang_indent(list_indent as int, label@.len() as int));
        }
        let w = self.config.page_width;
        let budget: usize = if w >= hang {
            w - hang
        } else {
            0
        };
        let lines = crate::textops::wrap_text(text, budget);
        let ghost wl = wrap_of(text@, budget as int);
        let ghost ls = wc_item_lines(wl, list_indent as int, label@);
        let ghost m0 = self.pager@;
        proof {
            assert(budget as int == sat_sub(
                cfg.page_width as int,
                hang_indent(list_indent as int, label@.len() as int),
            ));
            assert(ls.skip(0) =~= ls);
        }
        let mut i: usize = 0;
        while i < lines.len()
            invariant
                self.wf(),
                self.document == old(self).document,
                self.config == old(self).config,
                self.headline_seen == old(self).headline_seen,
                i <= lines@.len(),
                lines.deep_view() == wl,
                forall|j: int| 0 <= j < wl.len() ==> clean(#[trigger] wl[j]),
                m_push_each(dg, cfg, m0, ls) == m_push_each(dg, cfg, self.pager@, ls.skip(i as int)),
            decreases lines@.len() - i,
        {
            let ghost mprev = self.pager@;
            let line: String = if i == 0 {
                let mut line = make_spaces(list_indent);
                line.append(label);
                line.append(" ");
                line.append(lines[0].as_str());
                line
            } else {
                let mut line = make_spaces(hang);
                line.append(lines[i].as_str());
                line
            };
            proof {
                reveal_strlit(" ");
                assert(" "@ =~= seq![' ']);
                assert(lines@[i as int]@ == wl[i as int]);
                assert(line@ == ls[i as int]);
                crate::text::lemma_clean_spaces(list_indent as int);
                crate::text::lemma_clean_spaces(hang as int);
                assert(clean(line@)) by {
                    assert(clean(wl[i as int]));
                    if i == 0 {
                        lemma_clean_concat(spaces(list_indent as int), label@);
                        lemma_clean_concat(spaces(list_indent as int) + label@, seq![' ']);
                        lemma_clean_concat(
                            spaces(list_indent as int) + label@ + seq![' '],
                            wl[0],
                        );
                    } else {
                        lemma_clean_concat(spaces(hang as int), wl[i as int]);
                    }
                }
            }
            self.push_line(line.as_str());
            proof {
                assert(ls.skip(i as int)[0] == ls[i as int]);
                assert(self.pager@ == m_push(dg, cfg, mprev, ls[i as int]));
                assert(ls.skip(i as int).drop_first() =~= ls.skip(i + 1));
            }
            i = i + 1;
        }
        proof {
            assert(ls.skip(ls.len() as int) =~= Seq::<Seq<char>>::empty());
        }
    }

    /// Renders the items of one list.
    #[verifier::loop_isolation(false)]
    fn write_items(
        &mut self,
        contents: &Vec<Content>,
        list_indent: usize,
        compact: bool,
        style: Option<&OrderedListType>,
        start: u8,
    )
        requires
            old(self).wf(),
            forall|i: int| 0 <= i < contents@.len() ==> content_wf(#[trigger] contents@[i]),
        ensures
            final (self).wf(),
            final (self).document == old(self).document,
            final (self).config == old(self).config,
            (final (self).pager@, final (self).headline_seen) == wc_items_spec(
                *old(self).document,
                old(self).config,
                old(self).pager@,
                old(self).headline_seen,
                contents@,
                list_indent as int,
                compact,
                deref_style(style),
                start as int,
                0,
            ),
        decreases contents@, contents@.len(), 1int,
    {
        let ghost dg = *old(self).document;
        let ghost cfg = old(self).config;
        let ghost m0 = old(self).pager@;
        let ghost s0 = old(self).headline_seen;
        let ghost sst = deref_style(style);
        let ghost ind = list_indent as int;
        let mut i: usize = 0;
        while i < contents.len()
            invariant
                self.wf(),
                self.document == old(self).document,
                self.config == old(self).config,
                i <= contents@.len(),
                wc_items_spec(dg, cfg, m0, s0, contents@, ind, compact, sst, start as int, 0)
                    == wc_items_spec(
                    dg,
                    cfg,
                    self.pager@,
                    self.headline_seen,
                    contents@,
                    ind,
                    compact,
                    sst,
                    start as int,
                    i as int,
                ),
            decreases contents@.len() - i,
        {
            let ghost mprev = self.pager@;
            let ghost sprev = self.headline_seen;
            let item = &contents[i];
            proof {
                assert(content_wf(contents@[i as int]));
            }
            match item {
                Content::Paragraph { text } => {
                    let label: String = match style {
                        Option::Some(st) => ordinal_label(i, start, st),
                        Option::None => "*".to_owned(),
                    };
                    proof {
                        if style is None {
                            reveal_strlit("*");
                            assert(clean("*"@));
                        }
                        assert(label@ == item_label_spec(sst, start as int, i as int));
                    }
                    self.write_list_paragraph(text.as_str(), list_indent, label.as_str());
                    proof {
                        assert((self.pager@, self.headline_seen) == wc_item_step(
                            dg,
                            cfg,
                            mprev,
                            sprev,
                            contents@[i as int],
                            ind,
                            sst,
                            start as int,
                            i as int,
                        ));
                    }
                },
                _ => {
                    let bumped: usize = if list_indent <= usize::MAX - 2 {
                        list_indent + 2
                    } else {
                        list_indent
                    };
                    proof {
                        assert(bumped as int == bump2(ind));
                    }
                    self.write_content(item, bumped);
                    proof {
                        assert((self.pager@, self.headline_seen) == wc_item_step(
                            dg,
                            cfg,
                            mprev,
                            sprev,
                            contents@[i as int],
                            ind,
                            sst,
                            start as int,
                            i as int,
                        ));
                    }
                },
            }
            let ghost mstep = self.pager@;
            let ghost sstep = self.headline_seen;
            if !compact {
                self.push_blank_lines(1);
            }
            proof {
                assert(wc_items_spec(
                    dg,
                    cfg,
                    mprev,
                    sprev,
                    contents@,
                    ind,
                    compact,
                    sst,
                    start as int,
                    i as int,
                ) == wc_items_spec(
                    dg,
                    cfg,
                    self.pager@,
                    self.headline_seen,
                    contents@,
                    ind,
                    compact,
                    sst,
                    start as int,
                    i + 1,
                ));
            }
            i = i + 1;
        }
    }

    /// Renders one content node of the body at list indent
    /// `list_indent`.
    #[verifier::loop_isolation(false)]
    pub fn write_content(&mut self, content: &Content, list_indent: usize)
        requires
            old(self).wf(),
            content_wf(*content),
        ensures
            final (self).wf(),
            final (self).document == old(self).document,
            final (self).config == old(self).config,
            (final (self).pager@, final (self).headline_seen) == wc_spec(
                *old(self).document,
                old(self).config,
                old(self).pager@,
                old(self).headline_seen,
                *content,
                list_indent as int,
            ),
        decreases *content, 0int, 0int,
    {
        let ghost dg = *old(self).document;
        let ghost cfg = old(self).config;
        match content {
            Content::Paragraph { text } => {
                let ti: usize = if list_indent <= usize::MAX - 2 {
                    list_indent + 2
                } else {
                    list_indent
                };
                proof {
                    assert(ti as int == bump2(list_indent as int));
                }
                let w = self.config.page_width;
                let budget: usize = if w >= ti {
                    w - ti
                } else {
                    0
                };
                let lines = crate::textops::wrap_text(text.as_str(), budget);
                let ghost wl = wrap_of(text@, budget as int);
                let ghost ls = para_prefixed(wl, ti as int);
                let ghost m0 = self.pager@;
                proof {
                    assert(budget as int == sat_sub(cfg.page_width as int, ti as int));
                    assert(ls.skip(0) =~= ls);
                }
                let pre = make_spaces(ti);
                let mut i: usize = 0;
                while i < lines.len()
                    invariant
                        self.wf(),
                        self.document == old(self).document,
                        self.config == old(self).config,
                        self.headline_seen == old(self).headline_seen,
                        i <= lines@.len(),
                        lines.deep_view() == wl,
                        pre@ == spaces(ti as int),
                        forall|j: int| 0 <= j < wl.len() ==> clean(#[trigger] wl[j]),
                        m_push_each(dg, cfg, m0, ls) == m_push_each(
                            dg,
                            cfg,
                            self.pager@,
                            ls.skip(i as int),
                        ),
                    decreases lines@.len() - i,
                {
                    let ghost mprev = self.pager@;
                    let mut line = pre.clone();
                    line.append(lines[i].as_str());
                    proof {
                        assert(lines@[i as int]@ == wl[i as int]);
                        assert(line@ == ls[i as int]);
                        crate::text::lemma_clean_spaces(ti as int);
                        lemma_clean_concat(spaces(ti as int), wl[i as int]);
                    }
                    self.push_line(line.as_str());
                    proof {
                        assert(ls.skip(i as int)[0] == ls[i as int]);
                        assert(self.pager@ == m_push(dg, cfg, mprev, ls[i as int]));
                        assert(ls.skip(i as int).drop_first() =~= ls.skip(i + 1));
                    }
                    i = i + 1;
                }
                proof {
                    assert(ls.skip(ls.len() as int) =~= Seq::<Seq<char>>::empty());
                }
                self.push_blank_lines(1);
            },
            Content::Headline { text, indent, .. } => {
                if *indent == 0 {
                    if self.headline_seen {
                        self.page_break();
                    }
                    let up = crate::textops::to_uppercase_text(text.as_str());
                    self.push_centered(up.as_str());
                    self.push_blank_lines(1);
                    self.headline_seen = true;
                } else {
                    let mut line = make_spaces(*indent);
                    line.append(text.as_str());
                    proof {
                        crate::text::lemma_clean_spaces(*indent as int);
                        lemma_clean_concat(spaces(*indent as int), text@);
                    }
                    self.push_line(line.as_str());
                    self.push_blank_lines(1);
                }
            },
            Content::UnsortedList { contents, compact } => {
                self.write_items(contents, list_indent, *compact, Option::None, 0);
                if !*compact {
                    self.push_blank_lines(1);
                }
            },
            Content::OrderedList { contents, start, style, compact } => {
                self.write_items(contents, list_indent, *compact, Option::Some(style), *start);
                if !*compact {
                    self.push_blank_lines(1);
                }
            },
        }
    }

    /// Renders a run of top-level content nodes.
    #[verifier::loop_isolation(false)]
    pub fn write_contents(&mut self, contents: &Vec<Content>)
        requires
            old(self).wf(),
            forall|i: int| 0 <= i < contents@.len() ==> content_wf(#[trigger] contents@[i]),
        ensures
            final (self).wf(),
            final (self).document == old(self).document,
            final (self).config == old(self).config,
            (final (self).pager@, final (self).headline_seen) == wc_contents_spec(
                *old(self).document,
                old(self).config,
                old(self).pager@,
                old(self).headline_seen,
                contents@,
                0,
            ),
    {
        let ghost dg = *old(self).document;
        let ghost cfg = old(self).config;
        let ghost m0 = old(self).pager@;
        let ghost s0 = old(self).headline_seen;
        let mut i: usize = 0;
        while i < contents.len()
            invariant
                self.wf(),
                self.document == old(self).document,
                self.config == old(self).config,
                i <= contents@.len(),
                wc_contents_spec(dg, cfg, m0, s0, contents@, 0) == wc_contents_spec(
                    dg,
                    cfg,
                    self.pager@,
                    self.headline_seen,
                    contents@,
                    i as int,
                ),
            decreases contents@.len() - i,
        {
            let ghost mprev = self.pager@;
            let ghost sprev = self.headline_seen;
            proof {
                assert(content_wf(contents@[i as int]));
            }
            self.write_content(&contents[i], 0);
            proof {
                assert(wc_contents_spec(dg, cfg, mprev, sprev, contents@, i as int)
                    == wc_contents_spec(
                    dg,
                    cfg,
                    self.pager@,
                    self.headline_seen,
                    contents@,
                    i + 1,
                ));
            }
            i = i + 1;
        }
    }

    /// Ends the render: pads the final page, writes its footer, and
    /// hands back the buffer.  The last page is not followed by a form
    /// feed.
    pub fn finish(self) -> (r: String)
        requires
            self.wf(),
        ensures
            r@ == m_out(m_finish(*self.document, self.config, self.pager@)),
    {
        let doc = self.document;
        let cfg = self.config;
        let mut pager = self.pager;
        let h = cfg.page_height;
        let cap: usize = if h >= 2 {
            h - 1
        } else {
            h
        };
        proof {
            assert(cap as int == content_cap(cfg));
        }
        pager.pad_to(cap);
        if h >= 2 {
            let f = footer_string(doc, &cfg, pager.page);
            pager.append_line(f.as_str());
        }
        pager.out
    }
}

/// The state that `finish` closes the final page into.
pub open spec fn m_finish(doc: Document, cfg: Config, m: PagerModel) -> PagerModel {
    let padded = m_pad(m, content_cap(cfg));
    if footer_rows(cfg) == 1 {
        m_append(padded, footer_line_spec(doc, cfg, m.page))
    } else {
        padded
    }
}

/// Closing the final page of a well-formed state yields exactly
/// `page_height` clean lines, with the completed pages untouched.
pub proof fn lemma_finish_wf(doc: Document, cfg: Config, m: PagerModel)
    requires
        crate::pager::model_wf(m, cfg),
        doc.wf(),
        cfg.wf(),
    ensures
        m_finish(doc, cfg, m).done == m.done,
        m_finish(doc, cfg, m).cur.len() == cfg.page_height,
        crate::pager::lines_clean(m_finish(doc, cfg, m).cur),
{
    let padded = m_pad(m, content_cap(cfg));
    assert(padded.cur.len() == content_cap(cfg));
    assert(crate::pager::lines_clean(padded.cur)) by {
        assert forall|i: int| 0 <= i < padded.cur.len() implies clean(
            #[trigger] padded.cur[i],
        ) by {
            if i < m.cur.len() {
                assert(padded.cur[i] == m.cur[i]);
            } else {
                assert(padded.cur[i] =~= Seq::<char>::empty());
            }
        }
    }
    if footer_rows(cfg) == 1 {
        lemma_footer_clean(doc, cfg, m.page);
        crate::text::lemma_translit_clean(footer_line_spec(doc, cfg, m.page));
        let fin = m_finish(doc, cfg, m);
        assert forall|i: int| 0 <= i < fin.cur.len() implies clean(#[trigger] fin.cur[i]) by {
            if i < padded.cur.len() {
                assert(fin.cur[i] == padded.cur[i]);
            }
        }
    }
}

/// The full render pipeline as one function of the document and the
/// configuration.
pub open spec fn render_spec(doc: Document, cfg: Config) -> Seq<char> {
    let m0 = m_append_each(m_init(), header_lines_spec(doc, cfg, -1));
    let m1 = cover_spec(doc, cfg, m0);
    let m2 = m_close_page(doc, cfg, m1);
    let m3 = abstract_spec(doc, cfg, m2);
    let m4 = license_spec(doc, cfg, m3);
    let m5 = m_close_page(doc, cfg, m4);
    let m6 = title_block_spec(doc, cfg, m5);
    let m7 = wc_contents_spec(doc, cfg, m6, false, doc.content@, 0).0;
    m_out(m_finish(doc, cfg, m7))
}

/// Rendering is deterministic: the output is a function of the
/// document and the configuration alone, so two calls on equal inputs
/// produce byte-identical output.
pub proof fn lemma_render_deterministic(d1: Document, d2: Document, c1: Config, c2: Config)
    requires
        d1 == d2,
        c1 == c2,
    ensures
        render_spec(d1, c1) == render_spec(d2, c2),
{
}

} // verus!
