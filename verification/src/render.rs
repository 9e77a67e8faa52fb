//! The inverse direction: writing a tree back out as a token sequence, and
//! the proof that such a sequence parses to exactly the tree it came from.

use vstd::prelude::*;

use crate::token::SpecToken;
use crate::tokenizer::SpecHtmlToken;
use crate::tokenizer::SpecTokenizeError;
use crate::tokenizer::is_attribute_value;
use crate::tokenizer::is_punct;
use crate::tokenizer::lemma_next_markup_token_advances;
use crate::tokenizer::spec_attributes;
use crate::tokenizer::spec_next_markup_token;
use crate::parser::SpecFrame;
use crate::parser::SpecParseError;
use crate::parser::spec_parse;
use crate::parser::spec_parse_at;
use crate::parser::spec_push_child;
use crate::tree::SpecAttribute;
use crate::tree::SpecItem;
use crate::tree::SpecSelfClosingTag;
use crate::tree::SpecTag;

verus! {

/// One attribute, written out: name, `=`, value.
pub open spec fn render_attribute(a: SpecAttribute) -> Seq<SpecToken> {
    match a {
        SpecAttribute::Simple { name, value } => seq![
            SpecToken::Ident(name),
            SpecToken::Punct('=', false),
            value,
        ],
    }
}

/// An attribute list, written out in order.
pub open spec fn render_attributes(attrs: Seq<SpecAttribute>) -> Seq<SpecToken>
    decreases attrs.len(),
{
    if attrs.len() == 0 {
        Seq::empty()
    } else {
        render_attribute(attrs[0]) + render_attributes(attrs.drop_first())
    }
}

/// A tree node, written out: a content token stands alone; a self-closing tag
/// is `<` name attributes `/` `>`; a tag is `<` name attributes `>`, its
/// children in order, `<` `/` name `>`.
pub open spec fn render_item(item: SpecItem) -> Seq<SpecToken>
    decreases item,
{
    match item {
        SpecItem::Content(t) => seq![t],
        SpecItem::SelfClosingTag(tag) => seq![
            SpecToken::Punct('<', false),
            SpecToken::Ident(tag.name),
        ] + render_attributes(tag.attributes) + seq![
            SpecToken::Punct('/', false),
            SpecToken::Punct('>', false),
        ],
        SpecItem::Tag(tag) => seq![SpecToken::Punct('<', false), SpecToken::Ident(tag.name)]
            + render_attributes(tag.attributes) + seq![SpecToken::Punct('>', false)]
            + render_items(tag.children) + seq![
            SpecToken::Punct('<', false),
            SpecToken::Punct('/', false),
            SpecToken::Ident(tag.name),
            SpecToken::Punct('>', false),
        ],
    }
}

/// A node sequence, written out in order.
pub open spec fn render_items(items: Seq<SpecItem>) -> Seq<SpecToken>
    decreases items,
{
    if items.len() == 0 {
        Seq::empty()
    } else {
        render_item(items[0]) + render_items(items.drop_first())
    }
}

/// A well-formed attribute: its value could have been read by the tokenizer.
pub open spec fn wf_attribute(a: SpecAttribute) -> bool {
    match a {
        SpecAttribute::Simple { name: _, value } => is_attribute_value(value),
    }
}

/// A well-formed attribute list: every attribute is.
pub open spec fn wf_attributes(attrs: Seq<SpecAttribute>) -> bool {
    forall|i: int| 0 <= i < attrs.len() ==> wf_attribute(#[trigger] attrs[i])
}

/// A well-formed tree node: content is never punctuation, and every attribute
/// and child is well formed. Exactly the trees the parser can produce.
pub open spec fn wf_item(item: SpecItem) -> bool
    decreases item,
{
    match item {
        SpecItem::Content(t) => !(t matches SpecToken::Punct(_, _)),
        SpecItem::SelfClosingTag(tag) => wf_attributes(tag.attributes),
        SpecItem::Tag(tag) => wf_attributes(tag.attributes) && wf_items(tag.children),
    }
}

/// A well-formed node sequence: every node is.
pub open spec fn wf_items(items: Seq<SpecItem>) -> bool
    decreases items,
{
    if items.len() == 0 {
        true
    } else {
        wf_item(items[0]) && wf_items(items.drop_first())
    }
}

/// A window of the stream that equals a concatenation splits into one window
/// for each part.
proof fn lemma_subrange_split(ts: Seq<SpecToken>, pos: int, x: Seq<SpecToken>, y: Seq<SpecToken>)
    requires
        0 <= pos,
        pos + x.len() + y.len() <= ts.len(),
        ts.subrange(pos, pos + x.len() + y.len()) == x + y,
    ensures
        ts.subrange(pos, pos + x.len() as int) == x,
        ts.subrange(pos + x.len() as int, pos + x.len() + y.len()) == y,
{
    let both = ts.subrange(pos, pos + x.len() + y.len());
    assert forall|j: int| 0 <= j < x.len() implies ts.subrange(pos, pos + x.len() as int)[j]
        == x[j] by {
        assert(both[j] == (x + y)[j]);
        assert(ts.subrange(pos, pos + x.len() as int)[j] == ts[pos + j]);
        assert(both[j] == ts[pos + j]);
    }
    assert(ts.subrange(pos, pos + x.len() as int) =~= x);
    assert forall|j: int| 0 <= j < y.len() implies ts.subrange(
        pos + x.len() as int,
        pos + x.len() + y.len(),
    )[j] == y[j] by {
        assert(both[x.len() + j] == (x + y)[x.len() + j]);
        assert(ts.subrange(pos + x.len() as int, pos + x.len() + y.len())[j] == ts[pos + x.len()
            + j]);
        assert(both[x.len() + j] == ts[pos + x.len() + j]);
    }
    assert(ts.subrange(pos + x.len() as int, pos + x.len() + y.len()) =~= y);
}

/// A rendered attribute list, followed by its terminator, reads back as
/// exactly that list.
proof fn lemma_render_attributes_parse(
    ts: Seq<SpecToken>,
    pos: int,
    attrs: Seq<SpecAttribute>,
    self_closing: bool,
)
    requires
        wf_attributes(attrs),
        0 <= pos,
        pos + render_attributes(attrs).len() + (if self_closing {
            2int
        } else {
            1int
        }) <= ts.len(),
        ts.subrange(pos, pos + render_attributes(attrs).len()) == render_attributes(attrs),
        self_closing ==> is_punct(ts[pos + render_attributes(attrs).len()], '/') && is_punct(
            ts[pos + render_attributes(attrs).len() + 1],
            '>',
        ),
        !self_closing ==> is_punct(ts[pos + render_attributes(attrs).len()], '>'),
    ensures
        spec_attributes(ts, pos) == Ok::<_, SpecTokenizeError>(
            (
                attrs,
                self_closing,
                pos + render_attributes(attrs).len() + (if self_closing {
                    2int
                } else {
                    1int
                }),
            ),
        ),
    decreases attrs.len(),
{
    if attrs.len() == 0 {
        assert(attrs =~= Seq::<SpecAttribute>::empty());
    } else {
        let head = render_attribute(attrs[0]);
        let rest = render_attributes(attrs.drop_first());
        assert(render_attributes(attrs) == head + rest);
        lemma_subrange_split(ts, pos, head, rest);
        let sub = ts.subrange(pos, pos + head.len() as int);
        match attrs[0] {
            SpecAttribute::Simple { name, value } => {
                assert(sub[0] == ts[pos] && sub[1] == ts[pos + 1] && sub[2] == ts[pos + 2]);
                assert(ts[pos] == SpecToken::Ident(name));
                assert(ts[pos + 1] == SpecToken::Punct('=', false));
                assert(ts[pos + 2] == value);
                assert(wf_attribute(attrs[0]));
                assert(wf_attributes(attrs.drop_first())) by {
                    assert(forall|i: int|
                        0 <= i < attrs.drop_first().len() ==> #[trigger] attrs.drop_first()[i]
                            == attrs[i + 1]);
                }
                lemma_render_attributes_parse(ts, pos + 3, attrs.drop_first(), self_closing);
                assert(seq![attrs[0]] + attrs.drop_first() =~= attrs);
            },
        }
    }
}

/// The stack after appending `items`, in order, to the children of its top
/// frame.
spec fn push_children(stack: Seq<SpecFrame>, items: Seq<SpecItem>) -> Seq<SpecFrame>
    recommends
        stack.len() > 0,
{
    stack.update(
        stack.len() - 1,
        SpecFrame {
            name: stack.last().name,
            attributes: stack.last().attributes,
            children: stack.last().children + items,
        },
    )
}

/// A rendered node, wherever it stands in the stream, is consumed whole and
/// appended to the children of the innermost open tag.
proof fn lemma_render_item_parse(
    ts: Seq<SpecToken>,
    pos: int,
    stack: Seq<SpecFrame>,
    item: SpecItem,
)
    requires
        wf_item(item),
        stack.len() >= 1,
        0 <= pos,
        pos + render_item(item).len() <= ts.len(),
        ts.subrange(pos, pos + render_item(item).len()) == render_item(item),
    ensures
        spec_parse_at(ts, pos, stack) == spec_parse_at(
            ts,
            pos + render_item(item).len(),
            spec_push_child(stack, item),
        ),
    decreases item,
{
    let rendered = render_item(item);
    match item {
        SpecItem::Content(t) => {
            assert(ts.subrange(pos, pos + 1)[0] == ts[pos]);
            assert(ts[pos] == t);
            assert(spec_next_markup_token(ts, pos) == Ok::<_, SpecTokenizeError>(
                (SpecHtmlToken::Textish { content: t }, pos + 1),
            ));
        },
        SpecItem::SelfClosingTag(tag) => {
            let head = seq![SpecToken::Punct('<', false), SpecToken::Ident(tag.name)];
            let ra = render_attributes(tag.attributes);
            let tail = seq![SpecToken::Punct('/', false), SpecToken::Punct('>', false)];
            assert(rendered == (head + ra) + tail);
            lemma_subrange_split(ts, pos, head + ra, tail);
            lemma_subrange_split(ts, pos, head, ra);
            let sub_head = ts.subrange(pos, pos + head.len() as int);
            assert(sub_head[0] == ts[pos] && sub_head[1] == ts[pos + 1]);
            assert(ts[pos] == SpecToken::Punct('<', false));
            assert(ts[pos + 1] == SpecToken::Ident(tag.name));
            let tail_pos = pos + 2 + ra.len() as int;
            let sub_tail = ts.subrange(tail_pos, tail_pos + 2);
            assert(sub_tail[0] == ts[tail_pos] && sub_tail[1] == ts[tail_pos + 1]);
            assert(ts[tail_pos] == SpecToken::Punct('/', false));
            assert(ts[tail_pos + 1] == SpecToken::Punct('>', false));
            lemma_render_attributes_parse(ts, pos + 2, tag.attributes, true);
            assert(spec_next_markup_token(ts, pos) == Ok::<_, SpecTokenizeError>(
                (
                    SpecHtmlToken::SelfClosingTag { name: tag.name, attributes: tag.attributes },
                    pos + rendered.len(),
                ),
            ));
        },
        SpecItem::Tag(tag) => {
            let head = seq![SpecToken::Punct('<', false), SpecToken::Ident(tag.name)];
            let ra = render_attributes(tag.attributes);
            let gt = seq![SpecToken::Punct('>', false)];
            let rc = render_items(tag.children);
            let tail = seq![
                SpecToken::Punct('<', false),
                SpecToken::Punct('/', false),
                SpecToken::Ident(tag.name),
                SpecToken::Punct('>', false),
            ];
            assert(rendered == (((head + ra) + gt) + rc) + tail);
            lemma_subrange_split(ts, pos, ((head + ra) + gt) + rc, tail);
            lemma_subrange_split(ts, pos, (head + ra) + gt, rc);
            lemma_subrange_split(ts, pos, head + ra, gt);
            lemma_subrange_split(ts, pos, head, ra);
            let sub_head = ts.subrange(pos, pos + head.len() as int);
            assert(sub_head[0] == ts[pos] && sub_head[1] == ts[pos + 1]);
            assert(ts[pos] == SpecToken::Punct('<', false));
            assert(ts[pos + 1] == SpecToken::Ident(tag.name));
            let gt_pos = pos + 2 + ra.len() as int;
            assert(ts.subrange(gt_pos, gt_pos + 1)[0] == ts[gt_pos]);
            assert(ts[gt_pos] == SpecToken::Punct('>', false));
            lemma_render_attributes_parse(ts, pos + 2, tag.attributes, false);
            assert(spec_next_markup_token(ts, pos) == Ok::<_, SpecTokenizeError>(
                (
                    SpecHtmlToken::OpenTag { name: tag.name, attributes: tag.attributes },
                    gt_pos + 1,
                ),
            ));
            let opened = stack.push(
                SpecFrame { name: tag.name, attributes: tag.attributes, children: Seq::empty() },
            );
            lemma_render_items_parse(ts, gt_pos + 1, opened, tag.children);
            let filled = push_children(opened, tag.children);
            let close_pos = gt_pos + 1 + rc.len() as int;
            let sub_tail = ts.subrange(close_pos, close_pos + 4);
            assert(sub_tail[0] == ts[close_pos] && sub_tail[1] == ts[close_pos + 1] && sub_tail[2]
                == ts[close_pos + 2] && sub_tail[3] == ts[close_pos + 3]);
            assert(ts[close_pos] == SpecToken::Punct('<', false));
            assert(ts[close_pos + 1] == SpecToken::Punct('/', false));
            assert(ts[close_pos + 2] == SpecToken::Ident(tag.name));
            assert(ts[close_pos + 3] == SpecToken::Punct('>', false));
            assert(spec_next_markup_token(ts, close_pos) == Ok::<_, SpecTokenizeError>(
                (SpecHtmlToken::CloseTag { name: tag.name }, close_pos + 4),
            ));
            assert(filled.last() == SpecFrame {
                name: tag.name,
                attributes: tag.attributes,
                children: Seq::empty() + tag.children,
            });
            assert(Seq::<SpecItem>::empty() + tag.children =~= tag.children);
            assert(filled.len() == stack.len() + 1);
            assert(filled.drop_last() =~= stack);
            assert(spec_parse_at(ts, close_pos, filled) == spec_parse_at(
                ts,
                close_pos + 4,
                spec_push_child(stack, item),
            ));
            assert(close_pos + 4 == pos + rendered.len());
        },
    }
}

/// A rendered node sequence is consumed whole, each node appended in turn to
/// the children of the innermost open tag.
proof fn lemma_render_items_parse(
    ts: Seq<SpecToken>,
    pos: int,
    stack: Seq<SpecFrame>,
    items: Seq<SpecItem>,
)
    requires
        wf_items(items),
        stack.len() >= 1,
        0 <= pos,
        pos + render_items(items).len() <= ts.len(),
        ts.subrange(pos, pos + render_items(items).len()) == render_items(items),
    ensures
        spec_parse_at(ts, pos, stack) == spec_parse_at(
            ts,
            pos + render_items(items).len(),
            push_children(stack, items),
        ),
    decreases items,
{
    if items.len() == 0 {
        assert(stack.last().children + Seq::<SpecItem>::empty() =~= stack.last().children);
        assert(push_children(stack, items) =~= stack);
    } else {
        let head = render_item(items[0]);
        let rest = render_items(items.drop_first());
        assert(render_items(items) == head + rest);
        lemma_subrange_split(ts, pos, head, rest);
        lemma_render_item_parse(ts, pos, stack, items[0]);
        let stack2 = spec_push_child(stack, items[0]);
        lemma_render_items_parse(ts, pos + head.len() as int, stack2, items.drop_first());
        assert(stack.last().children.push(items[0]) + items.drop_first() =~= stack.last().children
            + items);
        assert(push_children(stack2, items.drop_first()) =~= push_children(stack, items));
    }
}

/// Round trip: a well-formed tree, written out as tokens, parses back to
/// exactly that tree.
pub proof fn lemma_render_parse_round_trip(item: SpecItem)
    requires
        wf_item(item),
    ensures
        spec_parse(render_item(item)) == Ok::<SpecItem, SpecParseError>(item),
{
    let ts = render_item(item);
    assert(ts.subrange(0, ts.len() as int) =~= ts);
    match item {
        SpecItem::Content(t) => {
            assert(ts[0] == t);
            assert(spec_next_markup_token(ts, 0) == Ok::<_, SpecTokenizeError>(
                (SpecHtmlToken::Textish { content: t }, 1int),
            ));
        },
        SpecItem::SelfClosingTag(tag) => {
            let head = seq![SpecToken::Punct('<', false), SpecToken::Ident(tag.name)];
            let ra = render_attributes(tag.attributes);
            let tail = seq![SpecToken::Punct('/', false), SpecToken::Punct('>', false)];
            assert(ts == (head + ra) + tail);
            lemma_subrange_split(ts, 0, head + ra, tail);
            lemma_subrange_split(ts, 0, head, ra);
            let sub_head = ts.subrange(0, head.len() as int);
            assert(sub_head[0] == ts[0] && sub_head[1] == ts[1]);
            let tail_pos = 2 + ra.len() as int;
            let sub_tail = ts.subrange(tail_pos, tail_pos + 2);
            assert(sub_tail[0] == ts[tail_pos] && sub_tail[1] == ts[tail_pos + 1]);
            lemma_render_attributes_parse(ts, 2, tag.attributes, true);
            assert(spec_next_markup_token(ts, 0) == Ok::<_, SpecTokenizeError>(
                (
                    SpecHtmlToken::SelfClosingTag { name: tag.name, attributes: tag.attributes },
                    ts.len() as int,
                ),
            ));
        },
        SpecItem::Tag(tag) => {
            let head = seq![SpecToken::Punct('<', false), SpecToken::Ident(tag.name)];
            let ra = render_attributes(tag.attributes);
            let gt = seq![SpecToken::Punct('>', false)];
            let rc = render_items(tag.children);
            let tail = seq![
                SpecToken::Punct('<', false),
                SpecToken::Punct('/', false),
                SpecToken::Ident(tag.name),
                SpecToken::Punct('>', false),
            ];
            assert(ts == (((head + ra) + gt) + rc) + tail);
            lemma_subrange_split(ts, 0, ((head + ra) + gt) + rc, tail);
            lemma_subrange_split(ts, 0, (head + ra) + gt, rc);
            lemma_subrange_split(ts, 0, head + ra, gt);
            lemma_subrange_split(ts, 0, head, ra);
            let sub_head = ts.subrange(0, head.len() as int);
            assert(sub_head[0] == ts[0] && sub_head[1] == ts[1]);
            let gt_pos = 2 + ra.len() as int;
            assert(ts.subrange(gt_pos, gt_pos + 1)[0] == ts[gt_pos]);
            lemma_render_attributes_parse(ts, 2, tag.attributes, false);
            assert(spec_next_markup_token(ts, 0) == Ok::<_, SpecTokenizeError>(
                (
                    SpecHtmlToken::OpenTag { name: tag.name, attributes: tag.attributes },
                    gt_pos + 1,
                ),
            ));
            let opened = seq![
                SpecFrame { name: tag.name, attributes: tag.attributes, children: Seq::empty() },
            ];
            lemma_render_items_parse(ts, gt_pos + 1, opened, tag.children);
            let filled = push_children(opened, tag.children);
            let close_pos = gt_pos + 1 + rc.len() as int;
            let sub_tail = ts.subrange(close_pos, close_pos + 4);
            assert(sub_tail[0] == ts[close_pos] && sub_tail[1] == ts[close_pos + 1] && sub_tail[2]
                == ts[close_pos + 2] && sub_tail[3] == ts[close_pos + 3]);
            assert(spec_next_markup_token(ts, close_pos) == Ok::<_, SpecTokenizeError>(
                (SpecHtmlToken::CloseTag { name: tag.name }, close_pos + 4),
            ));
            assert(Seq::<SpecItem>::empty() + tag.children =~= tag.children);
            assert(filled.last() == SpecFrame {
                name: tag.name,
                attributes: tag.attributes,
                children: Seq::empty() + tag.children,
            });
            assert(close_pos + 4 == ts.len());
        },
    }
}

/// A node appended to a well-formed node sequence keeps it well formed.
proof fn lemma_wf_items_push(items: Seq<SpecItem>, item: SpecItem)
    requires
        wf_items(items),
        wf_item(item),
    ensures
        wf_items(items.push(item)),
    decreases items.len(),
{
    if items.len() == 0 {
        assert(items.push(item)[0] == item);
        assert(items.push(item).drop_first() =~= Seq::<SpecItem>::empty());
        assert(wf_items(Seq::<SpecItem>::empty()));
        assert(wf_item(items.push(item)[0]));
    } else {
        assert(items.push(item)[0] == items[0]);
        assert(items.push(item).drop_first() =~= items.drop_first().push(item));
        lemma_wf_items_push(items.drop_first(), item);
        assert(wf_items(items.push(item).drop_first()));
        assert(wf_item(items.push(item)[0]));
    }
}

/// An attribute list the tokenizer accepts is well formed: every value is a
/// literal or a brace-delimited group.
proof fn lemma_spec_attributes_wf(ts: Seq<SpecToken>, pos: int)
    ensures
        spec_attributes(ts, pos) matches Ok(r) ==> wf_attributes(r.0),
    decreases ts.len() - pos,
{
    if 0 <= pos && pos + 2 < ts.len() {
        lemma_spec_attributes_wf(ts, pos + 3);
    }
    let result = spec_attributes(ts, pos);
    if result is Ok {
        let attrs = result->Ok_0.0;
        match ts[pos] {
            SpecToken::Ident(name) => {
                if !is_punct(ts[pos], '>') && !is_punct(ts[pos], '/') {
                    let rest = spec_attributes(ts, pos + 3)->Ok_0.0;
                    assert forall|i: int| 0 <= i < attrs.len() implies wf_attribute(
                        #[trigger] attrs[i],
                    ) by {
                        if i > 0 {
                            assert(attrs[i] == rest[i - 1]);
                        }
                    }
                }
            },
            _ => {},
        }
    }
}

/// A well-formed frame: its attributes and its accumulated children are.
spec fn wf_frame(frame: SpecFrame) -> bool {
    wf_attributes(frame.attributes) && wf_items(frame.children)
}

/// A well-formed stack: every frame is.
spec fn wf_stack(stack: Seq<SpecFrame>) -> bool {
    forall|i: int| 0 <= i < stack.len() ==> wf_frame(#[trigger] stack[i])
}

/// From a well-formed stack, whatever node the parse returns is well formed.
proof fn lemma_parse_at_wf(ts: Seq<SpecToken>, pos: int, stack: Seq<SpecFrame>)
    requires
        wf_stack(stack),
    ensures
        spec_parse_at(ts, pos, stack) matches Ok(item) ==> wf_item(item),
    decreases ts.len() - pos,
{
    lemma_next_markup_token_advances(ts, pos);
    lemma_spec_attributes_wf(ts, pos + 2);
    match spec_next_markup_token(ts, pos) {
        Ok((mt, next)) => {
            match mt {
                SpecHtmlToken::OpenTag { name, attributes } => {
                    let frame = SpecFrame { name, attributes, children: Seq::empty() };
                    assert(wf_items(Seq::<SpecItem>::empty()));
                    assert(wf_stack(stack.push(frame))) by {
                        assert(forall|i: int|
                            0 <= i < stack.len() ==> #[trigger] stack.push(frame)[i] == stack[i]);
                        assert(stack.push(frame)[stack.len() as int] == frame);
                    }
                    lemma_parse_at_wf(ts, next, stack.push(frame));
                },
                SpecHtmlToken::CloseTag { name } => {
                    if stack.len() > 0 && stack.last().name == name {
                        let item = SpecItem::Tag(
                            SpecTag {
                                name: stack.last().name,
                                attributes: stack.last().attributes,
                                children: stack.last().children,
                            },
                        );
                        assert(wf_frame(stack.last()));
                        if stack.len() > 1 {
                            let popped = stack.drop_last();
                            let pushed = spec_push_child(popped, item);
                            assert(wf_stack(pushed)) by {
                                assert(forall|i: int|
                                    0 <= i < popped.len() ==> #[trigger] popped[i] == stack[i]);
                                assert(forall|i: int|
                                    0 <= i < pushed.len() - 1 ==> #[trigger] pushed[i]
                                        == popped[i]);
                                lemma_wf_items_push(popped.last().children, item);
                                assert(pushed.last() == SpecFrame {
                                    name: popped.last().name,
                                    attributes: popped.last().attributes,
                                    children: popped.last().children.push(item),
                                });
                            }
                            lemma_parse_at_wf(ts, next, pushed);
                        }
                    }
                },
                SpecHtmlToken::SelfClosingTag { name, attributes } => {
                    let item = SpecItem::SelfClosingTag(
                        SpecSelfClosingTag { name, attributes },
                    );
                    if stack.len() > 0 {
                        let pushed = spec_push_child(stack, item);
                        assert(wf_stack(pushed)) by {
                            assert(forall|i: int|
                                0 <= i < pushed.len() - 1 ==> #[trigger] pushed[i] == stack[i]);
                            lemma_wf_items_push(stack.last().children, item);
                            assert(pushed.last() == SpecFrame {
                                name: stack.last().name,
                                attributes: stack.last().attributes,
                                children: stack.last().children.push(item),
                            });
                        }
                        lemma_parse_at_wf(ts, next, pushed);
                    }
                },
                SpecHtmlToken::Textish { content } => {
                    let item = SpecItem::Content(content);
                    assert(wf_item(item));
                    if stack.len() > 0 {
                        let pushed = spec_push_child(stack, item);
                        assert(wf_stack(pushed)) by {
                            assert(forall|i: int|
                                0 <= i < pushed.len() - 1 ==> #[trigger] pushed[i] == stack[i]);
                            lemma_wf_items_push(stack.last().children, item);
                            assert(pushed.last() == SpecFrame {
                                name: stack.last().name,
                                attributes: stack.last().attributes,
                                children: stack.last().children.push(item),
                            });
                        }
                        lemma_parse_at_wf(ts, next, pushed);
                    }
                },
            }
        },
        Err(_) => {},
    }
}

/// Whatever tree a parse returns is well formed, so the round trip above
/// applies to every tree the parser can produce.
pub proof fn lemma_parse_output_well_formed(ts: Seq<SpecToken>)
    ensures
        spec_parse(ts) matches Ok(item) ==> wf_item(item),
{
    lemma_parse_at_wf(ts, 0, Seq::empty());
}

} // verus!
