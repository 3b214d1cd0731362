//! The document-building side of the markdown collaborator: a plain
//! event stream (produced outside from a markdown parser) is folded
//! into the content tree, and a raw source file is split into its
//! metadata block and its body.  Only the decisions live here; the
//! markdown tokenizer itself stays outside.

use vstd::prelude::*;
use vstd::string::StrSliceExecFns;
use crate::{Content, ContentPosition, OrderedListType};

verus! {

/// One parse event, as plain data.
#[derive(Debug)]
pub enum MdEvent {
    ParagraphStart,
    ParagraphEnd,
    HeadingStart,
    HeadingEnd { level: u8 },
    Text { text: String },
    Code { text: String },
    /// `start` is the first ordinal of an ordered list; `None` marks an
    /// unordered list.
    ListStart { start: Option<u8> },
    ListEnd,
    ItemStart,
    ItemEnd,
    /// Any event the document model does not record.
    Other,
}

/// A list under construction.
#[derive(Debug)]
pub enum ListBuilder {
    Unordered { items: Vec<Content> },
    Ordered { items: Vec<Content>, start: u8 },
}

pub open spec fn builder_items(b: ListBuilder) -> Seq<Content> {
    match b {
        ListBuilder::Unordered { items } => items@,
        ListBuilder::Ordered { items, start } => items@,
    }
}

pub open spec fn builder_is_ordered(b: ListBuilder) -> bool {
    b is Ordered
}

pub open spec fn builder_start(b: ListBuilder) -> int {
    match b {
        ListBuilder::Unordered { items } => 0,
        ListBuilder::Ordered { items, start } => start as int,
    }
}

/// A whitespace character that trimming removes.
pub open spec fn is_space(c: char) -> bool {
    c == ' ' || c == '\t' || c == '\n' || c == '\r'
}

pub open spec fn trim_front(s: Seq<char>) -> Seq<char>
    decreases s.len(),
{
    if s.len() > 0 && is_space(s[0]) {
        trim_front(s.drop_first())
    } else {
        s
    }
}

pub open spec fn trim_back(s: Seq<char>) -> Seq<char>
    decreases s.len(),
{
    if s.len() > 0 && is_space(s.last()) {
        trim_back(s.drop_last())
    } else {
        s
    }
}

/// `s` without leading and trailing whitespace.
pub open spec fn trim_spec(s: Seq<char>) -> Seq<char> {
    trim_back(trim_front(s))
}

proof fn lemma_trim_front_skip(s: Seq<char>, a: int)
    requires
        0 <= a <= s.len(),
        forall|j: int| 0 <= j < a ==> is_space(#[trigger] s[j]),
        a < s.len() ==> !is_space(s[a]),
    ensures
        trim_front(s) == s.skip(a),
    decreases a,
{
    if a == 0 {
        assert(s.skip(0) =~= s);
    } else {
        assert(is_space(s[0]));
        assert(forall|j: int|
            0 <= j < a - 1 ==> #[trigger] s.drop_first()[j] == s[j + 1]);
        lemma_trim_front_skip(s.drop_first(), a - 1);
        assert(s.drop_first().skip(a - 1) =~= s.skip(a));
    }
}

proof fn lemma_trim_back_take(s: Seq<char>, b: int)
    requires
        0 <= b <= s.len(),
        forall|j: int| b <= j < s.len() ==> is_space(#[trigger] s[j]),
        b > 0 ==> !is_space(s[b - 1]),
    ensures
        trim_back(s) == s.take(b),
    decreases s.len() - b,
{
    if b == s.len() {
        assert(s.take(b) =~= s);
    } else {
        assert(is_space(s.last()));
        assert(forall|j: int| 0 <= j < s.len() - 1 ==> #[trigger] s.drop_last()[j] == s[j]);
        lemma_trim_back_take(s.drop_last(), b);
        assert(s.drop_last().take(b) =~= s.take(b));
    }
}

fn is_space_char(c: char) -> (r: bool)
    ensures
        r == is_space(c),
{
    c == ' ' || c == '\t' || c == '\n' || c == '\r'
}

/// Removes leading and trailing whitespace.
pub fn str_trim(s: &str) -> (r: String)
    ensures
        r@ == trim_spec(s@),
{
    let n = s.unicode_len();
    let mut a: usize = 0;
    while a < n && is_space_char(s.get_char(a))
        invariant
            a <= n,
            n == s@.len(),
            forall|j: int| 0 <= j < a ==> is_space(#[trigger] s@[j]),
        decreases n - a,
    {
        a = a + 1;
    }
    let mut b: usize = n;
    while b > a && is_space_char(s.get_char(b - 1))
        invariant
            a <= b <= n,
            n == s@.len(),
            forall|j: int| 0 <= j < a ==> is_space(#[trigger] s@[j]),
            a < n ==> !is_space(s@[a as int]),
            forall|j: int| b <= j < n ==> is_space(#[trigger] s@[j]),
        decreases b,
    {
        b = b - 1;
    }
    let mut r = String::new();
    let mut i: usize = a;
    while i < b
        invariant
            a <= i <= b <= n,
            n == s@.len(),
            r@ == s@.subrange(a as int, i as int),
        decreases b - i,
    {
        r.push(s.get_char(i));
        proof {
            assert(r@ =~= s@.subrange(a as int, i + 1));
        }
        i = i + 1;
    }
    proof {
        if b == a {
            assert(forall|j: int| a <= j < n ==> is_space(#[trigger] s@[j]));
        }
        lemma_trim_front_skip(s@, a as int);
        lemma_trim_back_take(s@.skip(a as int), b - a);
        assert(forall|j: int|
            b - a <= j < s@.skip(a as int).len() ==> #[trigger] s@.skip(a as int)[j] == s@[
            j + a]);
        assert(forall|j: int| 0 <= j < b - a ==> #[trigger] s@.skip(a as int)[j] == s@[j + a]);
        assert(trim_spec(s@) =~= s@.subrange(a as int, b as int));
    }
    r
}

/// What appending a text fragment does to the gathering buffer: a
/// single space is inserted first when the buffer is non-empty and
/// does not already end with one.
pub open spec fn push_text_spec(buf: Seq<char>, s: Seq<char>) -> Seq<char> {
    if buf.len() > 0 && buf.last() != ' ' {
        buf + seq![' '] + s
    } else {
        buf + s
    }
}

/// Appends one text fragment to the gathering buffer.
pub fn push_text(buf: &mut String, s: &str)
    ensures
        final (buf)@ == push_text_spec(old(buf)@, s@),
{
    let n = buf.as_str().unicode_len();
    if n > 0 {
        let last = buf.as_str().get_char(n - 1);
        if last != ' ' {
            buf.push(' ');
        }
    }
    buf.append(s);
    proof {
        if old(buf)@.len() > 0 && old(buf)@.last() != ' ' {
            assert(buf@ =~= old(buf)@ + seq![' '] + s@);
        }
    }
}

/// Pushes a finished paragraph: into the innermost open list when one
/// exists, otherwise into the top-level content run.
pub fn push_paragraph(out: &mut Vec<Content>, stack: &mut Vec<ListBuilder>, text: &str)
    ensures
        old(stack)@.len() == 0 ==> {
            &&& final (stack)@ == old(stack)@
            &&& final (out)@.len() == old(out)@.len() + 1
            &&& final (out)@.drop_last() == old(out)@
            &&& (final (out)@.last() matches Content::Paragraph { text: t } && t@ == trim_spec(
                text@,
            ))
        },
        old(stack)@.len() > 0 ==> {
            &&& final (out)@ == old(out)@
            &&& final (stack)@.len() == old(stack)@.len()
            &&& final (stack)@.drop_last() == old(stack)@.drop_last()
            &&& builder_is_ordered(final (stack)@.last()) == builder_is_ordered(
                old(stack)@.last(),
            )
            &&& builder_start(final (stack)@.last()) == builder_start(old(stack)@.last())
            &&& builder_items(final (stack)@.last()).len() == builder_items(
                old(stack)@.last(),
            ).len() + 1
            &&& builder_items(final (stack)@.last()).drop_last() == builder_items(
                old(stack)@.last(),
            )
            &&& (builder_items(final (stack)@.last()).last() matches Content::Paragraph {
                text: t,
            } && t@ == trim_spec(text@))
        },
{
    let para = Content::Paragraph { text: str_trim(text) };
    if stack.len() == 0 {
        out.push(para);
        proof {
            assert(out@.drop_last() =~= old(out)@);
        }
    } else {
        let builder = stack.pop().unwrap();
        match builder {
            ListBuilder::Unordered { mut items } => {
                items.push(para);
                stack.push(ListBuilder::Unordered { items });
            },
            ListBuilder::Ordered { mut items, start } => {
                items.push(para);
                stack.push(ListBuilder::Ordered { items, start });
            },
        }
        proof {
            assert(stack@.drop_last() =~= old(stack)@.drop_last());
            assert(builder_items(stack@.last()).drop_last() =~= builder_items(
                old(stack)@.last(),
            ));
        }
    }
}

/// `c` is exactly the content node that closing builder `b` yields:
/// an unordered or decimal-ordered, non-compact list holding the
/// builder's items.
pub open spec fn closed_node_matches(c: Content, b: ListBuilder) -> bool {
    match b {
        ListBuilder::Unordered { items } => c matches Content::UnsortedList {
            contents,
            compact,
        } && contents@ == items@ && compact == false,
        ListBuilder::Ordered { items, start } => c matches Content::OrderedList {
            contents,
            start: s2,
            style,
            compact,
        } && contents@ == items@ && s2 == start && style == OrderedListType::DecimalNumbers
            && compact == false,
    }
}

/// Closes the innermost open list into a content node (unordered, or
/// ordered with decimal numbering) and attaches it to the enclosing
/// list or the top-level run.  Does nothing when no list is open.
pub fn finalize_list(out: &mut Vec<Content>, stack: &mut Vec<ListBuilder>)
    ensures
        old(stack)@.len() == 0 ==> final (out)@ == old(out)@ && final (stack)@ == old(stack)@,
        old(stack)@.len() >= 1 ==> final (stack)@.len() == old(stack)@.len() - 1,
        old(stack)@.len() == 1 ==> {
            &&& final (out)@.len() == old(out)@.len() + 1
            &&& final (out)@.drop_last() == old(out)@
            &&& closed_node_matches(final (out)@.last(), old(stack)@.last())
        },
        old(stack)@.len() > 1 ==> {
            &&& final (out)@ == old(out)@
            &&& final (stack)@.drop_last() == old(stack)@.drop_last().drop_last()
            &&& builder_is_ordered(final (stack)@.last()) == builder_is_ordered(
                old(stack)@.drop_last().last(),
            )
            &&& builder_start(final (stack)@.last()) == builder_start(
                old(stack)@.drop_last().last(),
            )
            &&& builder_items(final (stack)@.last()).len() == builder_items(
                old(stack)@.drop_last().last(),
            ).len() + 1
            &&& builder_items(final (stack)@.last()).drop_last() == builder_items(
                old(stack)@.drop_last().last(),
            )
            &&& closed_node_matches(
                builder_items(final (stack)@.last()).last(),
                old(stack)@.last(),
            )
        },
{
    if stack.len() == 0 {
        return ;
    }
    let builder = stack.pop().unwrap();
    let node = match builder {
        ListBuilder::Unordered { items } => Content::UnsortedList {
            contents: items,
            compact: false,
        },
        ListBuilder::Ordered { items, start } => Content::OrderedList {
            contents: items,
            start,
            style: OrderedListType::DecimalNumbers,
            compact: false,
        },
    };
    if stack.len() == 0 {
        out.push(node);
        proof {
            assert(out@.drop_last() =~= old(out)@);
        }
    } else {
        let parent = stack.pop().unwrap();
        match parent {
            ListBuilder::Unordered { mut items } => {
                items.push(node);
                stack.push(ListBuilder::Unordered { items });
            },
            ListBuilder::Ordered { mut items, start } => {
                items.push(node);
                stack.push(ListBuilder::Ordered { items, start });
            },
        }
        proof {
            assert(stack@.drop_last() =~= old(stack)@.drop_last().drop_last());
            assert(builder_items(stack@.last()).drop_last() =~= builder_items(
                old(stack)@.drop_last().last(),
            ));
        }
    }
}

/// Pushes a finished list item into the innermost open list; dropped
/// when no list is open.
pub fn push_list_item(stack: &mut Vec<ListBuilder>, text: &str)
    ensures
        old(stack)@.len() == 0 ==> final (stack)@ == old(stack)@,
        old(stack)@.len() > 0 ==> {
            &&& final (stack)@.len() == old(stack)@.len()
            &&& final (stack)@.drop_last() == old(stack)@.drop_last()
            &&& builder_is_ordered(final (stack)@.last()) == builder_is_ordered(
                old(stack)@.last(),
            )
            &&& builder_start(final (stack)@.last()) == builder_start(old(stack)@.last())
            &&& builder_items(final (stack)@.last()).len() == builder_items(
                old(stack)@.last(),
            ).len() + 1
            &&& builder_items(final (stack)@.last()).drop_last() == builder_items(
                old(stack)@.last(),
            )
            &&& (builder_items(final (stack)@.last()).last() matches Content::Paragraph {
                text: t,
            } && t@ == trim_spec(text@))
        },
{
    if stack.len() == 0 {
        return ;
    }
    let item = Content::Paragraph { text: str_trim(text) };
    let builder = stack.pop().unwrap();
    match builder {
        ListBuilder::Unordered { mut items } => {
            items.push(item);
            stack.push(ListBuilder::Unordered { items });
        },
        ListBuilder::Ordered { mut items, start } => {
            items.push(item);
            stack.push(ListBuilder::Ordered { items, start });
        },
    }
    proof {
        assert(stack@.drop_last() =~= old(stack)@.drop_last());
        assert(builder_items(stack@.last()).drop_last() =~= builder_items(old(stack)@.last()));
    }
}

/// Closing a builder yields exactly the node its model closes to.
proof fn lemma_closed_node_model(c: Content, b: ListBuilder)
    requires
        closed_node_matches(c, b),
    ensures
        content_model(c) == closed_model(builder_model(b)),
{
    match b {
        ListBuilder::Unordered { items } => {
            assert(c is UnsortedList);
        },
        ListBuilder::Ordered { items, start } => {
            assert(c is OrderedList);
        },
    }
}

/// Folds a plain event stream into the content tree: paragraphs and
/// headings gather their text between start and end events, lists nest
/// through a builder stack, and unknown events are ignored.  The
/// result is exactly the model fold of the event run.
#[verifier::loop_isolation(false)]
pub fn parse_events(events: &Vec<MdEvent>) -> (r: Vec<Content>)
    ensures
        content_models(r@) == md_fold(
            (MdFoldState { out: Seq::empty(), text: Seq::empty(), stack: Seq::empty() }),
            events@,
            0,
        ).out,
{
    let ghost init = MdFoldState { out: Seq::empty(), text: Seq::empty(), stack: Seq::empty() };
    let mut out: Vec<Content> = Vec::new();
    let mut text = String::new();
    let mut stack: Vec<ListBuilder> = Vec::new();
    proof {
        assert(stack_models(stack@) =~= Seq::<BuilderModel>::empty());
        assert(state_model(out@, text@, stack@) =~= init);
    }
    let mut i: usize = 0;
    while i < events.len()
        invariant
            i <= events@.len(),
            md_fold(init, events@, 0) == md_fold(
                state_model(out@, text@, stack@),
                events@,
                i as int,
            ),
        decreases events@.len() - i,
    {
        let ghost pre = state_model(out@, text@, stack@);
        let ghost oo = out@;
        let ghost tx = text@;
        let ghost so = stack@;
        match &events[i] {
            MdEvent::ParagraphStart => {
                text = String::new();
                proof {
                    assert(state_model(out@, text@, stack@) =~= md_step(pre, events@[i as int]));
                }
            },
            MdEvent::ParagraphEnd => {
                push_paragraph(&mut out, &mut stack, text.as_str());
                proof {
                    if so.len() == 0 {
                        assert(out@ =~= oo.push(out@.last()));
                        lemma_content_models_push(oo, out@.last());
                        assert(content_model(out@.last()) == para_model(tx));
                        assert(state_model(out@, text@, stack@) =~= md_step(
                            pre,
                            events@[i as int],
                        ));
                    } else {
                        lemma_stack_push_model(so, stack@, para_model(tx));
                        assert(pre.stack.len() == so.len());
                        assert(state_model(out@, text@, stack@) =~= md_step(
                            pre,
                            events@[i as int],
                        ));
                    }
                }
            },
            MdEvent::HeadingStart => {
                text = String::new();
                proof {
                    assert(state_model(out@, text@, stack@) =~= md_step(pre, events@[i as int]));
                }
            },
            MdEvent::HeadingEnd { level } => {
                let lv: usize = if *level >= 1 {
                    (*level - 1) as usize
                } else {
                    0
                };
                let indent: usize = if lv <= 100 {
                    lv * 2
                } else {
                    200
                };
                out.push(
                    Content::Headline {
                        text: str_trim(text.as_str()),
                        indent,
                        position: ContentPosition::Left,
                    },
                );
                proof {
                    assert(indent as int == heading_indent_of(*level));
                    assert(out@ =~= oo.push(out@.last()));
                    lemma_content_models_push(oo, out@.last());
                    assert(content_model(out@.last()) == (ContentModel::Headline {
                        text: trim_spec(tx),
                        indent: heading_indent_of(*level),
                    }));
                    assert(state_model(out@, text@, stack@) =~= md_step(pre, events@[i as int]));
                }
            },
            MdEvent::Text { text: t } => {
                push_text(&mut text, t.as_str());
                proof {
                    assert(state_model(out@, text@, stack@) =~= md_step(pre, events@[i as int]));
                }
            },
            MdEvent::Code { text: t } => {
                push_text(&mut text, t.as_str());
                proof {
                    assert(state_model(out@, text@, stack@) =~= md_step(pre, events@[i as int]));
                }
            },
            MdEvent::ListStart { start } => {
                match start {
                    Option::None => {
                        stack.push(ListBuilder::Unordered { items: Vec::new() });
                    },
                    Option::Some(s) => {
                        stack.push(ListBuilder::Ordered { items: Vec::new(), start: *s });
                    },
                }
                proof {
                    assert(builder_items(stack@.last()) =~= Seq::<Content>::empty());
                    assert(content_models(Seq::<Content>::empty()) =~= Seq::<
                        ContentModel,
                    >::empty());
                    assert(stack_models(stack@) =~= stack_models(so).push(
                        builder_model(stack@.last()),
                    ));
                    assert(state_model(out@, text@, stack@) =~= md_step(pre, events@[i as int]));
                }
            },
            MdEvent::ListEnd => {
                finalize_list(&mut out, &mut stack);
                proof {
                    if so.len() == 0 {
                        assert(state_model(out@, text@, stack@) =~= md_step(
                            pre,
                            events@[i as int],
                        ));
                    } else if so.len() == 1 {
                        assert(out@ =~= oo.push(out@.last()));
                        lemma_content_models_push(oo, out@.last());
                        lemma_closed_node_model(out@.last(), so.last());
                        assert(stack_models(stack@) =~= Seq::<BuilderModel>::empty());
                        assert(pre.stack.last() == builder_model(so.last()));
                        assert(pre.stack.drop_last() =~= Seq::<BuilderModel>::empty());
                        assert(state_model(out@, text@, stack@) =~= md_step(
                            pre,
                            events@[i as int],
                        ));
                    } else {
                        let parent_old = so.drop_last();
                        lemma_closed_node_model(
                            builder_items(stack@.last()).last(),
                            so.last(),
                        );
                        lemma_stack_push_model(
                            parent_old,
                            stack@,
                            closed_model(builder_model(so.last())),
                        );
                        assert(stack_models(parent_old) =~= stack_models(so).drop_last());
                        assert(pre.stack.last() == builder_model(so.last()));
                        assert(pre.stack.drop_last().len() > 0);
                        assert(state_model(out@, text@, stack@) =~= md_step(
                            pre,
                            events@[i as int],
                        ));
                    }
                }
            },
            MdEvent::ItemStart => {
                text = String::new();
                proof {
                    assert(state_model(out@, text@, stack@) =~= md_step(pre, events@[i as int]));
                }
            },
            MdEvent::ItemEnd => {
                push_list_item(&mut stack, text.as_str());
                proof {
                    if so.len() == 0 {
                        assert(state_model(out@, text@, stack@) =~= md_step(
                            pre,
                            events@[i as int],
                        ));
                    } else {
                        lemma_stack_push_model(so, stack@, para_model(tx));
                        assert(state_model(out@, text@, stack@) =~= md_step(
                            pre,
                            events@[i as int],
                        ));
                    }
                }
            },
            MdEvent::Other => {
                proof {
                    assert(state_model(out@, text@, stack@) =~= md_step(pre, events@[i as int]));
                }
            },
        }
        i = i + 1;
    }
    out
}

/// Three dashes stand at position `j` of `s`.
pub open spec fn dash_at(s: Seq<char>, j: int) -> bool {
    0 <= j && j + 3 <= s.len() && s[j] == '-' && s[j + 1] == '-' && s[j + 2] == '-'
}

/// Index of the first "---" in `s`, or -1.
pub open spec fn find_dashes(s: Seq<char>) -> int
    decreases s.len(),
{
    if s.len() < 3 {
        -1
    } else if s[0] == '-' && s[1] == '-' && s[2] == '-' {
        0
    } else {
        let r = find_dashes(s.drop_first());
        if r < 0 {
            -1
        } else {
            r + 1
        }
    }
}

proof fn lemma_find_dashes(s: Seq<char>)
    ensures
        find_dashes(s) >= 0 ==> dash_at(s, find_dashes(s)),
        find_dashes(s) < 0 ==> forall|j: int| !(#[trigger] dash_at(s, j)),
        find_dashes(s) >= 0 ==> forall|j: int|
            0 <= j < find_dashes(s) ==> !(#[trigger] dash_at(s, j)),
    decreases s.len(),
{
    if s.len() < 3 {
        assert(forall|j: int| !(#[trigger] dash_at(s, j)));
    } else if s[0] == '-' && s[1] == '-' && s[2] == '-' {
    } else {
        let t = s.drop_first();
        lemma_find_dashes(t);
        assert(forall|j: int| 0 <= j < t.len() ==> #[trigger] t[j] == s[j + 1]);
        assert forall|j: int| dash_at(s, j) implies j >= 1 && dash_at(t, j - 1) by {
            if j == 0 {
                assert(false);
            } else {
                assert(t[j - 1] == s[j] && t[j] == s[j + 1] && t[j + 1] == s[j + 2]);
            }
        }
        if find_dashes(t) < 0 {
            assert forall|j: int| !(#[trigger] dash_at(s, j)) by {
                if dash_at(s, j) {
                    assert(dash_at(t, j - 1));
                }
            }
        } else {
            assert(dash_at(t, find_dashes(t)));
            assert(dash_at(s, find_dashes(s))) by {
                let f = find_dashes(t);
                assert(s[f + 1] == t[f] && s[f + 2] == t[f + 1] && s[f + 3] == t[f + 2]);
            }
            assert forall|j: int| 0 <= j < find_dashes(s) implies !(#[trigger] dash_at(s, j)) by {
                if dash_at(s, j) {
                    assert(j >= 1 && dash_at(t, j - 1));
                }
            }
        }
    }
}

/// What splitting a source file on its first two "---" separators
/// yields: the trimmed metadata block between them and the trimmed
/// body after the second, or nothing when the separators are missing.
pub open spec fn split_frontmatter_spec(s: Seq<char>) -> Option<(Seq<char>, Seq<char>)> {
    let f0 = find_dashes(s);
    if f0 < 0 {
        Option::None
    } else {
        let rest = s.skip(f0 + 3);
        let f1 = find_dashes(rest);
        if f1 < 0 {
            Option::None
        } else {
            Option::Some((trim_spec(rest.take(f1)), trim_spec(rest.skip(f1 + 3))))
        }
    }
}

#[verifier::loop_isolation(false)]
fn find_dashes_exec(s: &str) -> (r: Option<usize>)
    ensures
        match r {
            Option::Some(i) => find_dashes(s@) == i,
            Option::None => find_dashes(s@) < 0,
        },
{
    proof {
        lemma_find_dashes(s@);
    }
    let n = s.unicode_len();
    if n < 3 {
        proof {
            if find_dashes(s@) >= 0 {
                assert(dash_at(s@, find_dashes(s@)));
            }
        }
        return Option::None;
    }
    let mut i: usize = 0;
    while i <= n - 3
        invariant
            n == s@.len(),
            n >= 3,
            i <= n - 2,
            forall|j: int| 0 <= j < i ==> !(#[trigger] dash_at(s@, j)),
        decreases n - i,
    {
        if s.get_char(i) == '-' && s.get_char(i + 1) == '-' && s.get_char(i + 2) == '-' {
            proof {
                assert(dash_at(s@, i as int));
                if find_dashes(s@) < 0 {
                    assert(!dash_at(s@, i as int));
                }
                if find_dashes(s@) > i {
                    assert(!dash_at(s@, i as int));
                }
                if find_dashes(s@) < i {
                    assert(dash_at(s@, find_dashes(s@)));
                    assert(!dash_at(s@, find_dashes(s@)));
                }
            }
            return Option::Some(i);
        }
        proof {
            assert(!dash_at(s@, i as int));
        }
        i = i + 1;
    }
    proof {
        if find_dashes(s@) >= 0 {
            assert(dash_at(s@, find_dashes(s@)));
            assert(!dash_at(s@, find_dashes(s@)));
        }
    }
    Option::None
}

/// Splits a raw source file into its metadata block (between the first
/// two "---" separators) and its body (after the second), both
/// trimmed; `None` when either separator is missing.
pub fn split_frontmatter(input: &str) -> (r: Option<(String, String)>)
    ensures
        match r {
            Option::Some(parts) => {
                &&& split_frontmatter_spec(input@) matches Option::Some(sp)
                &&& parts.0@ == sp.0
                &&& parts.1@ == sp.1
            },
            Option::None => split_frontmatter_spec(input@) is None,
        },
{
    let n = input.unicode_len();
    let f0 = match find_dashes_exec(input) {
        Option::Some(i) => i,
        Option::None => {
            return Option::None;
        },
    };
    proof {
        lemma_find_dashes(input@);
        assert(dash_at(input@, f0 as int));
    }
    let rest = input.substring_char(f0 + 3, n);
    proof {
        assert(rest@ == input@.skip(f0 + 3));
    }
    let rn = rest.unicode_len();
    let f1 = match find_dashes_exec(rest) {
        Option::Some(i) => i,
        Option::None => {
            return Option::None;
        },
    };
    proof {
        lemma_find_dashes(rest@);
        assert(dash_at(rest@, f1 as int));
    }
    let yaml_raw = rest.substring_char(0, f1);
    let body_raw = rest.substring_char(f1 + 3, rn);
    let yaml = str_trim(yaml_raw);
    let body = str_trim(body_raw);
    proof {
        assert(yaml_raw@ =~= rest@.take(f1 as int));
        assert(body_raw@ =~= rest@.skip(f1 + 3));
    }
    Option::Some((yaml, body))
}

// ---------------------------------------------------------------------
// The mathematical model of the fold: content nodes as plain data, the
// builder stack as sequences, and one step function per event.
// ---------------------------------------------------------------------
/// The mathematical shape of one content node.
#[verifier::ext_equal]
pub enum ContentModel {
    Paragraph { text: Seq<char> },
    Headline { text: Seq<char>, indent: int },
    Unsorted { items: Seq<ContentModel>, compact: bool },
    Ordered { items: Seq<ContentModel>, start: int, style: OrderedListType, compact: bool },
}

/// The model of a content node.
pub open spec fn content_model(c: Content) -> ContentModel
    decreases c, 0int,
{
    match c {
        Content::Paragraph { text } => ContentModel::Paragraph { text: text@ },
        Content::Headline { text, indent, position } => ContentModel::Headline {
            text: text@,
            indent: indent as int,
        },
        Content::UnsortedList { contents, compact } => ContentModel::Unsorted {
            items: content_models(contents@),
            compact,
        },
        Content::OrderedList { contents, start, style, compact } => ContentModel::Ordered {
            items: content_models(contents@),
            start: start as int,
            style,
            compact,
        },
    }
}

/// The models of a run of content nodes.
pub open spec fn content_models(cs: Seq<Content>) -> Seq<ContentModel>
    decreases cs, 1int,
{
    if cs.len() == 0 {
        Seq::empty()
    } else {
        seq![content_model(cs[0])] + content_models(cs.drop_first())
    }
}

pub proof fn lemma_content_models_index(cs: Seq<Content>)
    ensures
        content_models(cs).len() == cs.len(),
        forall|i: int|
            0 <= i < cs.len() ==> content_models(cs)[i] == content_model(#[trigger] cs[i]),
    decreases cs.len(),
{
    if cs.len() != 0 {
        lemma_content_models_index(cs.drop_first());
        assert(forall|i: int|
            0 <= i < cs.drop_first().len() ==> #[trigger] cs.drop_first()[i] == cs[i + 1]);
        assert forall|i: int| 0 <= i < cs.len() implies content_models(cs)[i] == content_model(
            #[trigger] cs[i],
        ) by {
            assert(content_models(cs) == seq![content_model(cs[0])] + content_models(
                cs.drop_first(),
            ));
            if i == 0 {
                assert(content_models(cs)[0] == content_model(cs[0]));
            } else {
                assert(content_models(cs)[i] == content_models(cs.drop_first())[i - 1]);
                assert(cs.drop_first()[i - 1] == cs[i]);
                assert(content_models(cs.drop_first())[i - 1] == content_model(
                    cs.drop_first()[i - 1],
                ));
            }
        }
    }
}

pub proof fn lemma_content_models_push(cs: Seq<Content>, x: Content)
    ensures
        content_models(cs.push(x)) == content_models(cs).push(content_model(x)),
{
    lemma_content_models_index(cs);
    lemma_content_models_index(cs.push(x));
    assert forall|i: int| 0 <= i < cs.len() + 1 implies content_models(cs.push(x))[i]
        == content_models(cs).push(content_model(x))[i] by {
        assert(content_models(cs.push(x))[i] == content_model(cs.push(x)[i]));
        if i < cs.len() {
            assert(cs.push(x)[i] == cs[i]);
            assert(content_models(cs)[i] == content_model(cs[i]));
        } else {
            assert(cs.push(x)[i] == x);
        }
    }
    assert(content_models(cs.push(x)) =~= content_models(cs).push(content_model(x)));
}

/// The model of one list under construction.
#[verifier::ext_equal]
pub struct BuilderModel {
    pub ordered: bool,
    pub start: int,
    pub items: Seq<ContentModel>,
}

/// The model of a builder.
pub open spec fn builder_model(b: ListBuilder) -> BuilderModel {
    BuilderModel {
        ordered: builder_is_ordered(b),
        start: builder_start(b),
        items: content_models(builder_items(b)),
    }
}

/// The models of the whole builder stack.
pub open spec fn stack_models(st: Seq<ListBuilder>) -> Seq<BuilderModel> {
    Seq::new(st.len(), |i: int| builder_model(st[i]))
}

/// The full fold state: finished nodes, the gathering text buffer, and
/// the open lists.
#[verifier::ext_equal]
pub struct MdFoldState {
    pub out: Seq<ContentModel>,
    pub text: Seq<char>,
    pub stack: Seq<BuilderModel>,
}

/// The model of the fold's runtime state.
pub open spec fn state_model(out: Seq<Content>, text: Seq<char>, stack: Seq<ListBuilder>) -> MdFoldState {
    MdFoldState { out: content_models(out), text: text, stack: stack_models(stack) }
}

/// A finished paragraph or item, as a model.
pub open spec fn para_model(text: Seq<char>) -> ContentModel {
    ContentModel::Paragraph { text: trim_spec(text) }
}

/// The node a closed builder turns into.
pub open spec fn closed_model(b: BuilderModel) -> ContentModel {
    if b.ordered {
        ContentModel::Ordered {
            items: b.items,
            start: b.start,
            style: OrderedListType::DecimalNumbers,
            compact: false,
        }
    } else {
        ContentModel::Unsorted { items: b.items, compact: false }
    }
}

/// A node attached to the innermost open list.
pub open spec fn push_into_stack(stack: Seq<BuilderModel>, c: ContentModel) -> Seq<BuilderModel>
    recommends
        stack.len() > 0,
{
    let lb = stack.last();
    stack.drop_last().push(
        BuilderModel { ordered: lb.ordered, start: lb.start, items: lb.items.push(c) },
    )
}

/// The heading indent derived from a markdown heading level: two
/// columns per level past the first, capped defensively.
pub open spec fn heading_indent_of(level: u8) -> int {
    let lv: int = if level >= 1 {
        level - 1
    } else {
        0
    };
    if lv <= 100 {
        lv * 2
    } else {
        200
    }
}

/// One step of the fold.
pub open spec fn md_step(st: MdFoldState, ev: MdEvent) -> MdFoldState {
    match ev {
        MdEvent::ParagraphStart => MdFoldState { text: Seq::empty(), ..st },
        MdEvent::ParagraphEnd => if st.stack.len() == 0 {
            MdFoldState { out: st.out.push(para_model(st.text)), ..st }
        } else {
            MdFoldState { stack: push_into_stack(st.stack, para_model(st.text)), ..st }
        },
        MdEvent::HeadingStart => MdFoldState { text: Seq::empty(), ..st },
        MdEvent::HeadingEnd { level } => MdFoldState {
            out: st.out.push(
                ContentModel::Headline {
                    text: trim_spec(st.text),
                    indent: heading_indent_of(level),
                },
            ),
            ..st
        },
        MdEvent::Text { text } => MdFoldState { text: push_text_spec(st.text, text@), ..st },
        MdEvent::Code { text } => MdFoldState { text: push_text_spec(st.text, text@), ..st },
        MdEvent::ListStart { start } => {
            let b = match start {
                Option::Some(s) => BuilderModel {
                    ordered: true,
                    start: s as int,
                    items: Seq::empty(),
                },
                Option::None => BuilderModel { ordered: false, start: 0, items: Seq::empty() },
            };
            MdFoldState { stack: st.stack.push(b), ..st }
        },
        MdEvent::ListEnd => if st.stack.len() == 0 {
            st
        } else {
            let node = closed_model(st.stack.last());
            let rest = st.stack.drop_last();
            if rest.len() == 0 {
                MdFoldState { out: st.out.push(node), stack: rest, ..st }
            } else {
                MdFoldState { stack: push_into_stack(rest, node), ..st }
            }
        },
        MdEvent::ItemStart => MdFoldState { text: Seq::empty(), ..st },
        MdEvent::ItemEnd => if st.stack.len() == 0 {
            st
        } else {
            MdFoldState { stack: push_into_stack(st.stack, para_model(st.text)), ..st }
        },
        MdEvent::Other => st,
    }
}

/// The fold over an event run from `idx` on.
pub open spec fn md_fold(st: MdFoldState, events: Seq<MdEvent>, idx: int) -> MdFoldState
    decreases events.len() - idx,
{
    if idx < 0 || idx >= events.len() {
        st
    } else {
        md_fold(md_step(st, events[idx]), events, idx + 1)
    }
}

/// The new stack's model after attaching one node to the top builder.
proof fn lemma_stack_push_model(
    old_st: Seq<ListBuilder>,
    new_st: Seq<ListBuilder>,
    cm: ContentModel,
)
    requires
        old_st.len() > 0,
        new_st.len() == old_st.len(),
        new_st.drop_last() == old_st.drop_last(),
        builder_is_ordered(new_st.last()) == builder_is_ordered(old_st.last()),
        builder_start(new_st.last()) == builder_start(old_st.last()),
        builder_items(new_st.last()).len() == builder_items(old_st.last()).len() + 1,
        builder_items(new_st.last()).drop_last() == builder_items(old_st.last()),
        content_model(builder_items(new_st.last()).last()) == cm,
    ensures
        stack_models(new_st) == push_into_stack(stack_models(old_st), cm),
{
    let items_new = builder_items(new_st.last());
    let items_old = builder_items(old_st.last());
    assert(items_new =~= items_old.push(items_new.last()));
    lemma_content_models_push(items_old, items_new.last());
    assert(builder_model(new_st.last()) =~= BuilderModel {
        ordered: builder_is_ordered(old_st.last()),
        start: builder_start(old_st.last()),
        items: content_models(items_old).push(cm),
    });
    assert forall|i: int| 0 <= i < new_st.len() - 1 implies #[trigger] new_st[i] == old_st[i] by {
        assert(new_st.drop_last()[i] == new_st[i]);
        assert(old_st.drop_last()[i] == old_st[i]);
    }
    assert(stack_models(old_st).last() == builder_model(old_st.last()));
    assert(stack_models(new_st) =~= push_into_stack(stack_models(old_st), cm));
}


} // verus!
