//! Fixed-width, paginated plain-text typesetting for structured
//! documents: a document model (title, metadata, authors, content
//! tree), a page-buffer state machine, header/footer and page-number
//! policy, list ordinal generation, and the renderer that turns a
//! document into exact lines-per-page output with form feeds between
//! pages.

use vstd::prelude::*;

pub mod md;
pub mod pager;
pub mod render;
pub mod pages;
pub mod text;
pub mod textops;

verus! {

/// How the footer's page label is written: a bare numeral ("7", "iv")
/// or a bracketed form ("[Page 7]", "[Page iv]").
#[derive(Debug, Clone, Copy, PartialEq, Eq)]
pub enum FooterStyle {
    Bare,
    Bracketed,
}

/// Rendering configuration: the physical page layout and the
/// page-numbering and header policy used during rendering.
#[derive(Debug, Clone, Copy, PartialEq, Eq)]
pub struct Config {
    /// Total number of text lines per page, including header and footer.
    pub page_height: usize,

    /// Maximum number of characters per line.
    pub page_width: usize,

    /// Number of numbered pages rendered using lowercase roman numerals
    /// (i, ii, iii, ...) before decimal numbering begins.
    pub roman_pages: usize,

    /// First page index that carries a running header.  Front-matter
    /// pages sit below this threshold and carry no header.
    pub header_start: i64,

    /// How the footer's page label is formatted.
    pub footer_style: FooterStyle,
}

impl Config {
    /// A configuration is usable when both page dimensions are positive;
    /// the renderer assumes as much of every configuration it is given.
    pub open spec fn wf(self) -> bool {
        &&& self.page_height >= 1
        &&& self.page_width >= 1
    }

    /// Builds a configuration with the default header and footer policy:
    /// headers begin on the first numbered page, footers carry a bare label.
    pub fn new(page_height: usize, page_width: usize, roman_pages: usize) -> (c: Config)
        ensures
            c.page_height == page_height,
            c.page_width == page_width,
            c.roman_pages == roman_pages,
            c.header_start == 1i64,
            c.footer_style == FooterStyle::Bare,
    {
        Config {
            page_height,
            page_width,
            roman_pages,
            header_start: 1,
            footer_style: FooterStyle::Bare,
        }
    }

    /// Runtime check for `wf`, for callers outside verified code.
    pub fn is_valid(&self) -> (r: bool)
        ensures
            r == self.wf(),
    {
        self.page_height >= 1 && self.page_width >= 1
    }
}

/// A calendar date, held as plain numbers.  The renderer only reads the
/// three fields; parsing and calendar arithmetic happen outside.
#[derive(Debug, Clone, Copy, PartialEq, Eq)]
pub struct Date {
    pub year: u16,
    pub month: u8,
    pub day: u8,
}

impl Date {
    pub open spec fn wf(self) -> bool {
        &&& 1 <= self.month <= 12
        &&& 1 <= self.day <= 31
        &&& self.year <= 9999
    }

    pub fn is_valid(&self) -> (r: bool)
        ensures
            r == self.wf(),
    {
        1 <= self.month && self.month <= 12 && 1 <= self.day && self.day <= 31
            && self.year <= 9999
    }
}

/// Institutional affiliation metadata.
#[derive(Debug, Clone, PartialEq, Eq)]
pub struct Institution {
    pub name: String,
    pub department: Option<String>,
    pub street: Option<String>,
    pub postal_code: Option<String>,
    pub city: Option<String>,
    pub state: Option<String>,
    pub country: Option<String>,
    pub phone: Option<String>,
    pub email: Option<String>,
    pub website: Option<String>,
    pub code: Option<String>,
}

/// Metadata describing a document author.
#[derive(Debug, Clone, PartialEq, Eq)]
pub struct Author {
    /// Given name.
    pub first_name: Option<String>,
    /// Middle name or initials.
    pub middle_name: Option<String>,
    /// Family name / surname.
    pub last_name: String,
    /// Optional academic or professional title.
    pub title: Option<String>,
    pub email: Option<String>,
    /// Institutional affiliation.
    pub affiliation: Option<Institution>,
    pub phone: Option<String>,
    pub address: Option<String>,
}

/// Horizontal alignment recorded on a headline by its producer.  The
/// rendering policy fixes alignment by nesting level (top-level
/// headlines centered, nested ones left-aligned), so the recorded
/// position is carried for model fidelity rather than consulted.
#[derive(Debug, Clone, PartialEq, Eq)]
pub enum ContentPosition {
    Left,
    Center,
    Right,
}

/// Enumeration of ordered list numbering styles.
#[derive(Debug, Clone, PartialEq, Eq)]
pub enum OrderedListType {
    /// (a, b, c, ...)
    LowerCaseLetters,
    /// (A, B, C, ...)
    UpperCaseLetters,
    /// (1, 2, 3, ...)
    DecimalNumbers,
    /// (i, ii, iii, ...)
    LowercaseRomanNumerals,
    /// (I, II, III, ...)
    UppercaseRomanNumerals,
}

/// Logical content elements of a document.  Purely structural:
/// no pagination or layout state lives here.
#[derive(Debug)]
pub enum Content {
    /// A free-flowing paragraph of text.
    Paragraph { text: String },
    /// A section heading.
    Headline { text: String, indent: usize, position: ContentPosition },
    /// An unordered (bulleted) list.
    UnsortedList { contents: Vec<Content>, compact: bool },
    /// An ordered (numbered or lettered) list.
    OrderedList { contents: Vec<Content>, start: u8, style: OrderedListType, compact: bool },
}

/// A fully structured document ready for rendering, independent of any
/// output format.
#[derive(Debug)]
pub struct Document {
    /// Main document title.
    pub title: String,
    /// Optional subtitle displayed directly below the title.
    pub subtitle: Option<String>,
    /// Publication date of the document.
    pub date: Date,
    /// List of document authors.
    pub authors: Vec<Author>,
    /// Institutions referenced by authors.
    pub institutions: Vec<Institution>,
    /// Abstract or executive summary of the document.
    pub abstract_text: String,
    /// Optional license text rendered on its own front-matter page.
    pub license: Option<String>,
    /// Main document body content.
    pub content: Vec<Content>,
}

/// Text fields that become output lines must not themselves carry the
/// characters that delimit lines and pages.
pub open spec fn opt_clean(o: Option<String>) -> bool {
    match o {
        Option::Some(s) => text::clean(s@),
        Option::None => true,
    }
}

/// Well-formedness of one content node: every piece of text in it and
/// below it is free of line breaks and form feeds.
pub open spec fn content_wf(c: Content) -> bool
    decreases c,
{
    match c {
        Content::Paragraph { text } => text::clean(text@),
        Content::Headline { text, indent, position } => text::clean(text@),
        Content::UnsortedList { contents, compact } => forall|i: int|
            0 <= i < contents@.len() ==> content_wf(#[trigger] contents@[i]),
        Content::OrderedList { contents, start, style, compact } => forall|i: int|
            0 <= i < contents@.len() ==> content_wf(#[trigger] contents@[i]),
    }
}

impl Author {
    pub open spec fn wf(self) -> bool {
        &&& text::clean(self.last_name@)
        &&& opt_clean(self.first_name)
        &&& opt_clean(self.middle_name)
        &&& opt_clean(self.title)
        &&& match self.affiliation {
            Option::Some(inst) => text::clean(inst.name@),
            Option::None => true,
        }
    }
}

impl Document {
    /// A document the renderer accepts: a valid date, and no line-break
    /// or form-feed characters inside any text that becomes output.
    pub open spec fn wf(self) -> bool {
        &&& self.date.wf()
        &&& text::clean(self.title@)
        &&& opt_clean(self.subtitle)
        &&& text::clean(self.abstract_text@)
        &&& opt_clean(self.license)
        &&& forall|i: int| 0 <= i < self.authors@.len() ==> (#[trigger] self.authors@[i]).wf()
        &&& forall|i: int|
            0 <= i < self.institutions@.len() ==> text::clean(
                (#[trigger] self.institutions@[i]).name@,
            )
        &&& forall|i: int| 0 <= i < self.content@.len() ==> content_wf(#[trigger] self.content@[i])
    }
}

/// Runtime check that a string is free of line breaks and form feeds.
pub fn str_is_clean(s: &str) -> (r: bool)
    ensures
        r == text::clean(s@),
{
    let n = s.unicode_len();
    let mut i: usize = 0;
    while i < n
        invariant
            i <= n,
            n == s@.len(),
            forall|j: int| 0 <= j < i ==> text::clean_char(#[trigger] s@[j]),
        decreases n - i,
    {
        let c = s.get_char(i);
        if c == '\n' || c == '\x0C' {
            return false;
        }
        i = i + 1;
    }
    true
}

fn opt_str_is_clean(o: &Option<String>) -> (r: bool)
    ensures
        r == opt_clean(*o),
{
    match o {
        Option::Some(s) => str_is_clean(s.as_str()),
        Option::None => true,
    }
}

/// Runtime check for `content_wf`.
#[verifier::loop_isolation(false)]
pub fn content_is_well_formed(c: &Content) -> (r: bool)
    ensures
        r == content_wf(*c),
    decreases *c,
{
    match c {
        Content::Paragraph { text } => str_is_clean(text.as_str()),
        Content::Headline { text, indent, position } => str_is_clean(text.as_str()),
        Content::UnsortedList { contents, compact } => {
            let mut i: usize = 0;
            let mut ok: bool = true;
            while i < contents.len()
                invariant
                    i <= contents@.len(),
                    ok == forall|j: int| 0 <= j < i ==> content_wf(#[trigger] contents@[j]),
                decreases contents@.len() - i,
            {
                let this_ok = content_is_well_formed(&contents[i]);
                ok = ok && this_ok;
                i = i + 1;
            }
            ok
        },
        Content::OrderedList { contents, start, style, compact } => {
            let mut i: usize = 0;
            let mut ok: bool = true;
            while i < contents.len()
                invariant
                    i <= contents@.len(),
                    ok == forall|j: int| 0 <= j < i ==> content_wf(#[trigger] contents@[j]),
                decreases contents@.len() - i,
            {
                let this_ok = content_is_well_formed(&contents[i]);
                ok = ok && this_ok;
                i = i + 1;
            }
            ok
        },
    }
}

impl Document {
    /// Runtime check for `wf`, for callers outside verified code.
    pub fn is_well_formed(&self) -> (r: bool)
        ensures
            r == self.wf(),
    {
        let mut ok: bool = self.date.is_valid() && str_is_clean(self.title.as_str())
            && opt_str_is_clean(&self.subtitle) && str_is_clean(self.abstract_text.as_str())
            && opt_str_is_clean(&self.license);
        let mut i: usize = 0;
        while i < self.authors.len()
            invariant
                i <= self.authors@.len(),
                ok == (self.date.wf() && text::clean(self.title@) && opt_clean(self.subtitle)
                    && text::clean(self.abstract_text@) && opt_clean(self.license) && forall|j: int|
                    0 <= j < i ==> (#[trigger] self.authors@[j]).wf()),
            decreases self.authors@.len() - i,
        {
            let a = &self.authors[i];
            let a_ok = str_is_clean(a.last_name.as_str()) && opt_str_is_clean(&a.first_name)
                && opt_str_is_clean(&a.middle_name) && opt_str_is_clean(&a.title) && match &a
                .affiliation {
                Option::Some(inst) => str_is_clean(inst.name.as_str()),
                Option::None => true,
            };
            ok = ok && a_ok;
            i = i + 1;
        }
        let mut k: usize = 0;
        while k < self.institutions.len()
            invariant
                k <= self.institutions@.len(),
                ok == (self.date.wf() && text::clean(self.title@) && opt_clean(self.subtitle)
                    && text::clean(self.abstract_text@) && opt_clean(self.license) && (forall|
                    j: int,
                |
                    0 <= j < self.authors@.len() ==> (#[trigger] self.authors@[j]).wf()) && forall|
                    j: int,
                |
                    0 <= j < k ==> text::clean((#[trigger] self.institutions@[j]).name@)),
            decreases self.institutions@.len() - k,
        {
            let inst_ok = str_is_clean(self.institutions[k].name.as_str());
            ok = ok && inst_ok;
            k = k + 1;
        }
        let mut t: usize = 0;
        while t < self.content.len()
            invariant
                t <= self.content@.len(),
                ok == (self.date.wf() && text::clean(self.title@) && opt_clean(self.subtitle)
                    && text::clean(self.abstract_text@) && opt_clean(self.license) && (forall|
                    j: int,
                |
                    0 <= j < self.authors@.len() ==> (#[trigger] self.authors@[j]).wf()) && (forall|
                    j: int,
                |
                    0 <= j < self.institutions@.len() ==> text::clean(
                        (#[trigger] self.institutions@[j]).name@,
                    )) && forall|j: int| 0 <= j < t ==> content_wf(#[trigger] self.content@[j])),
            decreases self.content@.len() - t,
        {
            let c_ok = content_is_well_formed(&self.content[t]);
            ok = ok && c_ok;
            t = t + 1;
        }
        ok
    }
}

impl Document {
    /// Render the document as paginated plain text: layout, pagination,
    /// header and footer generation, and text wrapping according to the
    /// given configuration.
    ///
    /// The result is a single text value.  Lines are newline-terminated
    /// and pages are separated by single form-feed characters, with
    /// none after the final page; every page holds exactly
    /// `config.page_height` lines.  The output is a function of the
    /// document and the configuration alone.
    pub fn render(&self, config: Config) -> (r: String)
        requires
            self.wf(),
            config.wf(),
        ensures
            r@ == render::render_spec(*self, config),
            pages::split_char(r@, '\x0C').len() >= 1,
            forall|i: int|
                0 <= i < pages::split_char(r@, '\x0C').len() ==> pages::count_char(
                    #[trigger] pages::split_char(r@, '\x0C')[i],
                    '\n',
                ) == config.page_height,
    {
        let mut rd = render::Render::new(config, self);
        rd.render_cover_pages();
        rd.new_page();
        rd.write_abstract();
        rd.write_license();
        rd.new_page();
        rd.write_title_block();
        rd.write_contents(&self.content);
        let ghost m7 = rd.pager@;
        let ghost fin = render::m_finish(*self, config, m7);
        proof {
            render::lemma_finish_wf(*self, config, m7);
        }
        let out = rd.finish();
        proof {
            pages::lemma_paged_output(fin.done, fin.cur, config.page_height as int);
        }
        out
    }
}

} // verus!
