//! The structural parser: consumes the markup-token sequence and builds one
//! rooted tree node with an explicit stack, matching opens to closes and
//! enforcing exactly one top-level result.
//!
//! An open tag pushes a frame; a close tag pops the matching frame and seals
//! its children into a tag node; self-closing tags and content tokens become
//! nodes directly. A finished node is the root when the stack is empty — the
//! input must then be exhausted — and a child of the enclosing frame
//! otherwise. Every error aborts the whole parse; no partial tree is ever
//! returned.

use vstd::prelude::*;

use crate::token::SpecToken;
use crate::token::Token;
use crate::token::tokens_view;
use crate::tokenizer::HtmlOpenToken;
use crate::tokenizer::HtmlToken;
use crate::tokenizer::SpecHtmlToken;
use crate::tokenizer::SpecTokenizeError;
use crate::tokenizer::TokenizeError;
use crate::tokenizer::lemma_next_markup_token_advances;
use crate::tokenizer::parse_html_token;
use crate::tokenizer::spec_next_markup_token;
use crate::tree::SnaxItem;
use crate::tree::SnaxTag;
use crate::tree::SnaxSelfClosingTag;
use crate::tree::SpecAttribute;
use crate::tree::SpecItem;
use crate::tree::SpecSelfClosingTag;
use crate::tree::SpecTag;
use crate::tree::attrs_view;
use crate::tree::items_view;

verus! {

broadcast use {
    vstd::std_specs::vec::group_vec_axioms,
    crate::token::lemma_tokens_view_len,
    crate::token::lemma_tokens_view_index,
    crate::tree::lemma_items_view_len,
    crate::tree::lemma_items_view_index,
};

/// A parse failure: the stream ran out mid-construct, a concrete token
/// violated the grammar, a markup token stood in a structurally impossible
/// place (chiefly a close tag with no matching open), or a close tag's name
/// did not match its open tag's.
#[derive(Debug)]
pub enum ParseError {
    UnexpectedEnd,
    UnexpectedItem(HtmlToken),
    UnexpectedToken(Token),
    MismatchedTag { expected: String, found: String },
}

/// The model of a parse failure.
pub enum SpecParseError {
    UnexpectedEnd,
    UnexpectedItem(SpecHtmlToken),
    UnexpectedToken(SpecToken),
    MismatchedTag { expected: Seq<char>, found: Seq<char> },
}

impl View for ParseError {
    type V = SpecParseError;

    open spec fn view(&self) -> SpecParseError {
        match self {
            ParseError::UnexpectedEnd => SpecParseError::UnexpectedEnd,
            ParseError::UnexpectedItem(t) => SpecParseError::UnexpectedItem(t@),
            ParseError::UnexpectedToken(t) => SpecParseError::UnexpectedToken(t@),
            ParseError::MismatchedTag { expected, found } => SpecParseError::MismatchedTag {
                expected: expected@,
                found: found@,
            },
        }
    }
}

/// A tokenizer failure, as the parser reports it.
pub open spec fn spec_error_of(e: SpecTokenizeError) -> SpecParseError {
    match e {
        SpecTokenizeError::UnexpectedEnd => SpecParseError::UnexpectedEnd,
        SpecTokenizeError::UnexpectedToken(t) => SpecParseError::UnexpectedToken(t),
    }
}

impl vstd::std_specs::convert::FromSpecImpl<TokenizeError> for ParseError {
    open spec fn obeys_from_spec() -> bool {
        true
    }

    open spec fn from_spec(e: TokenizeError) -> ParseError {
        match e {
            TokenizeError::UnexpectedEnd => ParseError::UnexpectedEnd,
            TokenizeError::UnexpectedToken(token) => ParseError::UnexpectedToken(token),
        }
    }
}

impl From<TokenizeError> for ParseError {
    /// A tokenizer failure carries over to the parser unchanged.
    fn from(error: TokenizeError) -> (r: ParseError) {
        match error {
            TokenizeError::UnexpectedEnd => ParseError::UnexpectedEnd,
            TokenizeError::UnexpectedToken(token) => ParseError::UnexpectedToken(token),
        }
    }
}

/// The model of one stack frame: a currently-open tag's name and attributes,
/// and the children accumulated for it so far.
pub struct SpecFrame {
    pub name: Seq<char>,
    pub attributes: Seq<SpecAttribute>,
    pub children: Seq<SpecItem>,
}

/// The stack after appending `item` to the children of its top frame.
pub open spec fn spec_push_child(stack: Seq<SpecFrame>, item: SpecItem) -> Seq<SpecFrame>
    recommends
        stack.len() > 0,
{
    stack.update(
        stack.len() - 1,
        SpecFrame {
            name: stack.last().name,
            attributes: stack.last().attributes,
            children: stack.last().children.push(item),
        },
    )
}

/// The result of parsing from position `pos` with the given open-tag stack:
/// the stack discipline of the structural parser, step by step. An open tag
/// pushes a frame; a close tag pops one (failing on an empty stack or a name
/// mismatch) and seals it into a tag node; self-closing tags and content
/// become nodes directly. A node built with the stack empty is the root, and
/// the input must end right after it; otherwise the node joins the enclosing
/// frame's children.
pub open spec fn spec_parse_at(ts: Seq<SpecToken>, pos: int, stack: Seq<SpecFrame>) -> Result<
    SpecItem,
    SpecParseError,
>
    decreases ts.len() - pos,
    via spec_parse_at_decreases
{
    match spec_next_markup_token(ts, pos) {
        Err(e) => Err(spec_error_of(e)),
        Ok((mt, next)) => match mt {
            SpecHtmlToken::OpenTag { name, attributes } => spec_parse_at(
                ts,
                next,
                stack.push(SpecFrame { name, attributes, children: Seq::empty() }),
            ),
            SpecHtmlToken::CloseTag { name } => {
                if stack.len() == 0 {
                    Err(SpecParseError::UnexpectedItem(SpecHtmlToken::CloseTag { name }))
                } else if stack.last().name != name {
                    Err(
                        SpecParseError::MismatchedTag {
                            expected: stack.last().name,
                            found: name,
                        },
                    )
                } else {
                    let item = SpecItem::Tag(
                        SpecTag {
                            name: stack.last().name,
                            attributes: stack.last().attributes,
                            children: stack.last().children,
                        },
                    );
                    if stack.len() == 1 {
                        if next == ts.len() {
                            Ok(item)
                        } else {
                            Err(SpecParseError::UnexpectedToken(ts[next]))
                        }
                    } else {
                        spec_parse_at(ts, next, spec_push_child(stack.drop_last(), item))
                    }
                }
            },
            SpecHtmlToken::SelfClosingTag { name, attributes } => {
                let item = SpecItem::SelfClosingTag(SpecSelfClosingTag { name, attributes });
                if stack.len() == 0 {
                    if next == ts.len() {
                        Ok(item)
                    } else {
                        Err(SpecParseError::UnexpectedToken(ts[next]))
                    }
                } else {
                    spec_parse_at(ts, next, spec_push_child(stack, item))
                }
            },
            SpecHtmlToken::Textish { content } => {
                let item = SpecItem::Content(content);
                if stack.len() == 0 {
                    if next == ts.len() {
                        Ok(item)
                    } else {
                        Err(SpecParseError::UnexpectedToken(ts[next]))
                    }
                } else {
                    spec_parse_at(ts, next, spec_push_child(stack, item))
                }
            },
        },
    }
}

#[via_fn]
proof fn spec_parse_at_decreases(ts: Seq<SpecToken>, pos: int, stack: Seq<SpecFrame>) {
    lemma_next_markup_token_advances(ts, pos);
}

/// The result of parsing a whole token sequence: exactly one rooted node, or
/// the first error.
pub open spec fn spec_parse(ts: Seq<SpecToken>) -> Result<SpecItem, SpecParseError> {
    spec_parse_at(ts, 0, Seq::empty())
}

/// The one kind of construct that can stand open on the parser's stack.
#[derive(Debug)]
enum OpenToken {
    Tag(HtmlOpenToken),
}

/// The model of one stack entry: an open tag and its children so far.
spec fn frame_view(frame: (OpenToken, Vec<SnaxItem>)) -> SpecFrame {
    match frame.0 {
        OpenToken::Tag(t) => SpecFrame {
            name: t.name@,
            attributes: attrs_view(t.attributes@),
            children: items_view(frame.1@),
        },
    }
}

/// The model of the open-tag stack, frame by frame.
spec fn stack_view(stack: Seq<(OpenToken, Vec<SnaxItem>)>) -> Seq<SpecFrame> {
    Seq::new(stack.len(), |i: int| frame_view(stack[i]))
}

/// Attempts to parse a token sequence into a single rooted `SnaxItem`.
pub fn parse(input_stream: Vec<Token>) -> (r: Result<SnaxItem, ParseError>)
    ensures
        match r {
            Ok(item) => spec_parse(tokens_view(input_stream@)) == Ok::<SpecItem, SpecParseError>(
                item@,
            ),
            Err(e) => spec_parse(tokens_view(input_stream@)) == Err::<SpecItem, SpecParseError>(
                e@,
            ),
        },
{
    let ghost ts = tokens_view(input_stream@);
    let mut pos: usize = 0;
    let mut tag_stack: Vec<(OpenToken, Vec<SnaxItem>)> = Vec::new();
    proof {
        assert(stack_view(tag_stack@) =~= Seq::<SpecFrame>::empty());
    }

    loop
        invariant
            pos <= input_stream@.len(),
            ts == tokens_view(input_stream@),
            spec_parse(ts) == spec_parse_at(ts, pos as int, stack_view(tag_stack@)),
        decreases input_stream@.len() - pos,
    {
        let ghost prev = pos as int;
        let ghost st = stack_view(tag_stack@);
        let markup = match parse_html_token(&input_stream, &mut pos) {
            Ok(markup) => markup,
            Err(e) => {
                let ghost ev = e@;
                let parse_error = ParseError::from(e);
                proof {
                    assert(parse_error@ == spec_error_of(ev));
                }
                return Err(parse_error);
            },
        };
        proof {
            lemma_next_markup_token_advances(ts, prev);
        }
        match markup {
            HtmlToken::OpenTag(opening_tag) => {
                let ghost frame = SpecFrame {
                    name: opening_tag.name@,
                    attributes: attrs_view(opening_tag.attributes@),
                    children: Seq::empty(),
                };
                tag_stack.push((OpenToken::Tag(opening_tag), Vec::new()));
                proof {
                    assert(items_view(Seq::<SnaxItem>::empty()) =~= Seq::<SpecItem>::empty());
                    assert(stack_view(tag_stack@) =~= st.push(frame));
                }
            },
            HtmlToken::CloseTag(closing_tag) => {
                let (open_token, children) = match tag_stack.pop() {
                    Some(top) => top,
                    None => {
                        return Err(ParseError::UnexpectedItem(HtmlToken::CloseTag(closing_tag)));
                    },
                };
                let opening_tag = match open_token {
                    OpenToken::Tag(tag) => tag,
                };
                proof {
                    assert(st.last() == frame_view((OpenToken::Tag(opening_tag), children)));
                    assert(stack_view(tag_stack@) =~= st.drop_last());
                }
                if !(opening_tag.name == closing_tag.name) {
                    return Err(
                        ParseError::MismatchedTag {
                            expected: opening_tag.name,
                            found: closing_tag.name,
                        },
                    );
                }
                let tag = SnaxTag {
                    name: opening_tag.name,
                    attributes: opening_tag.attributes,
                    children,
                };
                if tag_stack.len() == 0 {
                    if pos < input_stream.len() {
                        proof {
                            crate::token::lemma_tokens_view_index(input_stream@, pos as int);
                        }
                        return Err(ParseError::UnexpectedToken(input_stream[pos].clone()));
                    }
                    return Ok(SnaxItem::Tag(tag));
                }
                push_child(&mut tag_stack, SnaxItem::Tag(tag));
            },
            HtmlToken::SelfClosingTag(self_closing_tag) => {
                let tag = SnaxSelfClosingTag {
                    name: self_closing_tag.name,
                    attributes: self_closing_tag.attributes,
                };
                if tag_stack.len() == 0 {
                    if pos < input_stream.len() {
                        proof {
                            crate::token::lemma_tokens_view_index(input_stream@, pos as int);
                        }
                        return Err(ParseError::UnexpectedToken(input_stream[pos].clone()));
                    }
                    return Ok(SnaxItem::SelfClosingTag(tag));
                }
                push_child(&mut tag_stack, SnaxItem::SelfClosingTag(tag));
            },
            HtmlToken::Textish(textish) => {
                if tag_stack.len() == 0 {
                    if pos < input_stream.len() {
                        proof {
                            crate::token::lemma_tokens_view_index(input_stream@, pos as int);
                        }
                        return Err(ParseError::UnexpectedToken(input_stream[pos].clone()));
                    }
                    return Ok(SnaxItem::Content(textish.content));
                }
                push_child(&mut tag_stack, SnaxItem::Content(textish.content));
            },
        }
    }
}

/// Appends `item` to the children of the top frame of a non-empty stack.
fn push_child(tag_stack: &mut Vec<(OpenToken, Vec<SnaxItem>)>, item: SnaxItem)
    requires
        old(tag_stack)@.len() > 0,
    ensures
        stack_view(final(tag_stack)@) == spec_push_child(stack_view(old(tag_stack)@), item@),
{
    let ghost st = stack_view(tag_stack@);
    let ghost it = item@;
    let (open_token, mut children) = match tag_stack.pop() {
        Some(top) => top,
        None => {
            proof {
                assert(false);
            }
            unreached()
        },
    };
    let ghost old_children = children@;
    children.push(item);
    proof {
        assert(items_view(children@) =~= items_view(old_children).push(it)) by {
            assert(children@.drop_last() =~= old_children);
        }
    }
    tag_stack.push((open_token, children));
    proof {
        assert(stack_view(tag_stack@) =~= spec_push_child(st, it));
    }
}

} // verus!
