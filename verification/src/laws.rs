//! Laws of the parser: properties that hold of every input, stated over the
//! parser's model and proved once and for all.

use vstd::prelude::*;

use crate::token::Delimiter;
use crate::token::SpecToken;
use crate::tokenizer::SpecHtmlToken;
use crate::tokenizer::SpecTokenizeError;
use crate::tokenizer::is_punct;
use crate::tokenizer::lemma_next_markup_token_advances;
use crate::tokenizer::spec_attributes;
use crate::tokenizer::spec_next_markup_token;
use crate::parser::SpecFrame;
use crate::parser::SpecParseError;
use crate::parser::spec_parse;
use crate::parser::spec_parse_at;
use crate::parser::spec_push_child;
use crate::tree::SpecItem;
use crate::tree::SpecSelfClosingTag;
use crate::tree::SpecTag;

verus! {

/// A lone literal or lone brace-expression token parses to a content node
/// wrapping that exact token, unchanged.
pub proof fn lemma_lone_content_token(t: SpecToken)
    requires
        (t matches SpecToken::Literal(_)) || (t matches SpecToken::Group(Delimiter::Brace, _)),
    ensures
        spec_parse(seq![t]) == Ok::<SpecItem, SpecParseError>(SpecItem::Content(t)),
{
    let ts = seq![t];
    assert(ts.len() == 1 && ts[0] == t);
    assert(spec_next_markup_token(ts, 0) == Ok::<_, SpecTokenizeError>(
        (SpecHtmlToken::Textish { content: t }, 1int),
    ));
}

/// A close-tag construct with no open tag on the stack fails as a misplaced
/// item, whatever follows it.
pub proof fn lemma_unmatched_close_tag(ts: Seq<SpecToken>, pos: int, name: Seq<char>, next: int)
    requires
        spec_next_markup_token(ts, pos) == Ok::<_, SpecTokenizeError>(
            (SpecHtmlToken::CloseTag { name }, next),
        ),
    ensures
        spec_parse_at(ts, pos, Seq::empty()) == Err::<SpecItem, SpecParseError>(
            SpecParseError::UnexpectedItem(SpecHtmlToken::CloseTag { name }),
        ),
{
}

/// An empty input has no item to produce: it fails with `UnexpectedEnd`.
pub proof fn lemma_empty_input()
    ensures
        spec_parse(Seq::empty()) == Err::<SpecItem, SpecParseError>(
            SpecParseError::UnexpectedEnd,
        ),
{
}

/// Two adjacent top-level non-tag tokens are two sibling root candidates,
/// never one merged node: the parse fails at the exhaustion check, on the
/// second token.
pub proof fn lemma_second_root_item_rejected(t1: SpecToken, t2: SpecToken)
    requires
        !(t1 matches SpecToken::Punct(_, _)),
        !(t2 matches SpecToken::Punct(_, _)),
    ensures
        spec_parse(seq![t1, t2]) == Err::<SpecItem, SpecParseError>(
            SpecParseError::UnexpectedToken(t2),
        ),
{
    let ts = seq![t1, t2];
    assert(ts.len() == 2 && ts[0] == t1 && ts[1] == t2);
    assert(spec_next_markup_token(ts, 0) == Ok::<_, SpecTokenizeError>(
        (SpecHtmlToken::Textish { content: t1 }, 1int),
    ));
}

/// A successful attribute list reads only tokens of the stream it consumed:
/// appending tokens leaves it unchanged.
proof fn lemma_spec_attributes_extended(ts: Seq<SpecToken>, more: Seq<SpecToken>, pos: int)
    requires
        spec_attributes(ts, pos) is Ok,
    ensures
        spec_attributes(ts + more, pos) == spec_attributes(ts, pos),
    decreases ts.len() - pos,
{
    let ext = ts + more;
    assert(0 <= pos < ts.len());
    assert(ext[pos] == ts[pos]);
    if is_punct(ts[pos], '>') {
    } else if is_punct(ts[pos], '/') {
        assert(ext[pos + 1] == ts[pos + 1]);
    } else {
        match ts[pos] {
            SpecToken::Ident(name) => {
                assert(ext[pos + 1] == ts[pos + 1]);
                assert(ext[pos + 2] == ts[pos + 2]);
                lemma_spec_attributes_extended(ts, more, pos + 3);
            },
            _ => {},
        }
    }
}

/// A successful markup token reads only tokens of the stream it consumed:
/// appending tokens leaves it unchanged.
proof fn lemma_next_markup_token_extended(ts: Seq<SpecToken>, more: Seq<SpecToken>, pos: int)
    requires
        spec_next_markup_token(ts, pos) is Ok,
    ensures
        spec_next_markup_token(ts + more, pos) == spec_next_markup_token(ts, pos),
{
    let ext = ts + more;
    assert(0 <= pos < ts.len());
    assert(ext[pos] == ts[pos]);
    if is_punct(ts[pos], '<') {
        assert(ext[pos + 1] == ts[pos + 1]);
        if is_punct(ts[pos + 1], '/') {
            assert(ext[pos + 2] == ts[pos + 2]);
            if pos + 3 < ts.len() {
                assert(ext[pos + 3] == ts[pos + 3]);
            }
        } else {
            lemma_spec_attributes_extended(ts, more, pos + 2);
        }
    }
}

/// Parsing that succeeds from some state fails on the stream extended past
/// its end, at the first extra token.
proof fn lemma_parse_at_token_after_root(
    ts: Seq<SpecToken>,
    more: Seq<SpecToken>,
    pos: int,
    stack: Seq<SpecFrame>,
)
    requires
        spec_parse_at(ts, pos, stack) is Ok,
        more.len() > 0,
    ensures
        spec_parse_at(ts + more, pos, stack) == Err::<SpecItem, SpecParseError>(
            SpecParseError::UnexpectedToken(more[0]),
        ),
    decreases ts.len() - pos,
{
    let ext = ts + more;
    lemma_next_markup_token_advances(ts, pos);
    lemma_next_markup_token_extended(ts, more, pos);
    match spec_next_markup_token(ts, pos) {
        Ok((mt, next)) => {
            match mt {
                SpecHtmlToken::OpenTag { name, attributes } => {
                    lemma_parse_at_token_after_root(
                        ts,
                        more,
                        next,
                        stack.push(SpecFrame { name, attributes, children: Seq::empty() }),
                    );
                },
                SpecHtmlToken::CloseTag { name } => {
                    let item = SpecItem::Tag(
                        SpecTag {
                            name: stack.last().name,
                            attributes: stack.last().attributes,
                            children: stack.last().children,
                        },
                    );
                    if stack.len() == 1 && stack.last().name == name {
                        assert(next == ts.len());
                        assert(ext[next] == more[0]);
                    } else {
                        lemma_parse_at_token_after_root(
                            ts,
                            more,
                            next,
                            spec_push_child(stack.drop_last(), item),
                        );
                    }
                },
                SpecHtmlToken::SelfClosingTag { name, attributes } => {
                    let item = SpecItem::SelfClosingTag(SpecSelfClosingTag { name, attributes });
                    if stack.len() == 0 {
                        assert(next == ts.len());
                        assert(ext[next] == more[0]);
                    } else {
                        lemma_parse_at_token_after_root(ts, more, next, spec_push_child(stack, item));
                    }
                },
                SpecHtmlToken::Textish { content } => {
                    let item = SpecItem::Content(content);
                    if stack.len() == 0 {
                        assert(next == ts.len());
                        assert(ext[next] == more[0]);
                    } else {
                        lemma_parse_at_token_after_root(ts, more, next, spec_push_child(stack, item));
                    }
                },
            }
        },
        Err(_) => {},
    }
}

/// Any token following a fully closed root fails with `UnexpectedToken` on
/// that token, whatever it is and whatever follows it.
pub proof fn lemma_token_after_root(ts: Seq<SpecToken>, more: Seq<SpecToken>)
    requires
        spec_parse(ts) is Ok,
        more.len() > 0,
    ensures
        spec_parse(ts + more) == Err::<SpecItem, SpecParseError>(
            SpecParseError::UnexpectedToken(more[0]),
        ),
{
    lemma_parse_at_token_after_root(ts, more, 0, Seq::empty());
}

} // verus!
