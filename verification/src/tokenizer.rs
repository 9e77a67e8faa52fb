//! The markup tokenizer: recognizes tag boundaries and attribute syntax in a
//! raw token sequence and emits one markup token per call, advancing a shared
//! cursor.
//!
//! Recognition rules: a leading `<` punctuation starts a tag construct — a
//! close tag (`/`, name, `>`), or a name followed by attributes terminated by
//! `>` (open tag) or `/` `>` (self-closing tag). An attribute is a name, `=`,
//! and a value that is either a literal or a brace-delimited group. Any other
//! non-punctuation token is consumed whole as a single content token; content
//! never recurses into a group and never merges with an adjacent token.

use vstd::prelude::*;

use crate::token::Delimiter;
use crate::token::SpecToken;
use crate::token::Token;
use crate::token::tokens_view;
use crate::tree::SnaxAttribute;
use crate::tree::SpecAttribute;
use crate::tree::attribute_view;
use crate::tree::attrs_view;

verus! {

broadcast use {
    vstd::std_specs::vec::group_vec_axioms,
    crate::token::lemma_tokens_view_len,
    crate::token::lemma_tokens_view_index,
};

/// The head of an open tag: its name and its attributes, in source order.
#[derive(Debug)]
pub struct HtmlOpenToken {
    pub name: String,
    pub attributes: Vec<SnaxAttribute>,
}

/// A close tag: its name.
#[derive(Debug)]
pub struct HtmlCloseToken {
    pub name: String,
}

/// A self-closing tag: its name and its attributes, in source order.
#[derive(Debug)]
pub struct HtmlSelfClosingToken {
    pub name: String,
    pub attributes: Vec<SnaxAttribute>,
}

/// A single content token, carried verbatim.
#[derive(Debug)]
pub struct HtmlTextishToken {
    pub content: Token,
}

/// One markup token: what the tokenizer hands to the structural parser.
#[derive(Debug)]
pub enum HtmlToken {
    OpenTag(HtmlOpenToken),
    CloseTag(HtmlCloseToken),
    SelfClosingTag(HtmlSelfClosingToken),
    Textish(HtmlTextishToken),
}

/// A tokenizer failure: the stream ran out mid-construct, or a concrete token
/// violated the tag grammar.
#[derive(Debug)]
pub enum TokenizeError {
    UnexpectedEnd,
    UnexpectedToken(Token),
}

/// The model of a markup token.
pub enum SpecHtmlToken {
    OpenTag { name: Seq<char>, attributes: Seq<SpecAttribute> },
    CloseTag { name: Seq<char> },
    SelfClosingTag { name: Seq<char>, attributes: Seq<SpecAttribute> },
    Textish { content: SpecToken },
}

/// The model of a tokenizer failure.
pub enum SpecTokenizeError {
    UnexpectedEnd,
    UnexpectedToken(SpecToken),
}

impl View for HtmlToken {
    type V = SpecHtmlToken;

    open spec fn view(&self) -> SpecHtmlToken {
        match self {
            HtmlToken::OpenTag(t) => SpecHtmlToken::OpenTag {
                name: t.name@,
                attributes: attrs_view(t.attributes@),
            },
            HtmlToken::CloseTag(t) => SpecHtmlToken::CloseTag { name: t.name@ },
            HtmlToken::SelfClosingTag(t) => SpecHtmlToken::SelfClosingTag {
                name: t.name@,
                attributes: attrs_view(t.attributes@),
            },
            HtmlToken::Textish(t) => SpecHtmlToken::Textish { content: t.content@ },
        }
    }
}

impl View for TokenizeError {
    type V = SpecTokenizeError;

    open spec fn view(&self) -> SpecTokenizeError {
        match self {
            TokenizeError::UnexpectedEnd => SpecTokenizeError::UnexpectedEnd,
            TokenizeError::UnexpectedToken(t) => SpecTokenizeError::UnexpectedToken(t@),
        }
    }
}

/// Whether a token is the punctuation character `c`.
pub open spec fn is_punct(t: SpecToken, c: char) -> bool {
    match t {
        SpecToken::Punct(c2, _) => c2 == c,
        _ => false,
    }
}

/// Whether a token may stand as an attribute value: a literal, or a
/// brace-delimited group.
pub open spec fn is_attribute_value(t: SpecToken) -> bool {
    match t {
        SpecToken::Literal(_) => true,
        SpecToken::Group(d, _) => d == Delimiter::Brace,
        _ => false,
    }
}

/// The attribute list of a tag head, read from position `pos`: zero or more
/// `name = value` attributes, terminated by `>` (an open tag) or by `/` `>`
/// (a self-closing tag — the boolean in the result). Returns the attributes
/// in source order and the position just past the terminator.
pub open spec fn spec_attributes(ts: Seq<SpecToken>, pos: int) -> Result<
    (Seq<SpecAttribute>, bool, int),
    SpecTokenizeError,
>
    decreases ts.len() - pos,
{
    if pos < 0 || pos >= ts.len() {
        Err(SpecTokenizeError::UnexpectedEnd)
    } else if is_punct(ts[pos], '>') {
        Ok((Seq::empty(), false, pos + 1))
    } else if is_punct(ts[pos], '/') {
        if pos + 1 >= ts.len() {
            Err(SpecTokenizeError::UnexpectedEnd)
        } else if is_punct(ts[pos + 1], '>') {
            Ok((Seq::empty(), true, pos + 2))
        } else {
            Err(SpecTokenizeError::UnexpectedToken(ts[pos + 1]))
        }
    } else {
        match ts[pos] {
            SpecToken::Ident(name) => {
                if pos + 1 >= ts.len() {
                    Err(SpecTokenizeError::UnexpectedEnd)
                } else if !is_punct(ts[pos + 1], '=') {
                    Err(SpecTokenizeError::UnexpectedToken(ts[pos + 1]))
                } else if pos + 2 >= ts.len() {
                    Err(SpecTokenizeError::UnexpectedEnd)
                } else if !is_attribute_value(ts[pos + 2]) {
                    Err(SpecTokenizeError::UnexpectedToken(ts[pos + 2]))
                } else {
                    match spec_attributes(ts, pos + 3) {
                        Ok((rest, self_closing, end)) => Ok(
                            (
                                seq![SpecAttribute::Simple { name, value: ts[pos + 2] }] + rest,
                                self_closing,
                                end,
                            ),
                        ),
                        Err(e) => Err(e),
                    }
                }
            },
            _ => Err(SpecTokenizeError::UnexpectedToken(ts[pos])),
        }
    }
}

/// The markup token that starts at position `pos`, and the position just past
/// it. A `<` punctuation starts a tag construct; any identifier, literal or
/// group is one content token; any other punctuation is malformed. An
/// exhausted stream is `UnexpectedEnd`.
pub open spec fn spec_next_markup_token(ts: Seq<SpecToken>, pos: int) -> Result<
    (SpecHtmlToken, int),
    SpecTokenizeError,
> {
    if pos < 0 || pos >= ts.len() {
        Err(SpecTokenizeError::UnexpectedEnd)
    } else if is_punct(ts[pos], '<') {
        if pos + 1 >= ts.len() {
            Err(SpecTokenizeError::UnexpectedEnd)
        } else if is_punct(ts[pos + 1], '/') {
            if pos + 2 >= ts.len() {
                Err(SpecTokenizeError::UnexpectedEnd)
            } else {
                match ts[pos + 2] {
                    SpecToken::Ident(name) => {
                        if pos + 3 >= ts.len() {
                            Err(SpecTokenizeError::UnexpectedEnd)
                        } else if is_punct(ts[pos + 3], '>') {
                            Ok((SpecHtmlToken::CloseTag { name }, pos + 4))
                        } else {
                            Err(SpecTokenizeError::UnexpectedToken(ts[pos + 3]))
                        }
                    },
                    _ => Err(SpecTokenizeError::UnexpectedToken(ts[pos + 2])),
                }
            }
        } else {
            match ts[pos + 1] {
                SpecToken::Ident(name) => match spec_attributes(ts, pos + 2) {
                    Ok((attributes, self_closing, end)) => if self_closing {
                        Ok((SpecHtmlToken::SelfClosingTag { name, attributes }, end))
                    } else {
                        Ok((SpecHtmlToken::OpenTag { name, attributes }, end))
                    },
                    Err(e) => Err(e),
                },
                _ => Err(SpecTokenizeError::UnexpectedToken(ts[pos + 1])),
            }
        }
    } else {
        match ts[pos] {
            SpecToken::Punct(_, _) => Err(SpecTokenizeError::UnexpectedToken(ts[pos])),
            _ => Ok((SpecHtmlToken::Textish { content: ts[pos] }, pos + 1)),
        }
    }
}

/// A successful attribute list always moves the cursor forward, and never
/// past the end of the stream.
pub proof fn lemma_spec_attributes_advances(ts: Seq<SpecToken>, pos: int)
    ensures
        spec_attributes(ts, pos) matches Ok(r) ==> pos < r.2 <= ts.len(),
    decreases ts.len() - pos,
{
    if 0 <= pos && pos + 2 < ts.len() {
        lemma_spec_attributes_advances(ts, pos + 3);
    }
}

/// A successful markup token always moves the cursor forward, and never past
/// the end of the stream.
pub proof fn lemma_next_markup_token_advances(ts: Seq<SpecToken>, pos: int)
    ensures
        spec_next_markup_token(ts, pos) matches Ok(r) ==> pos < r.1 <= ts.len(),
{
    lemma_spec_attributes_advances(ts, pos + 2);
}

/// Whether this token is the punctuation character `c`.
fn is_punct_token(t: &Token, c: char) -> (r: bool)
    ensures
        r == is_punct(t@, c),
{
    match t {
        Token::Punct(c2, _) => *c2 == c,
        _ => false,
    }
}

/// An attribute-list result, with `prefix` prepended to its attributes.
pub open spec fn with_attr_prefix(
    prefix: Seq<SpecAttribute>,
    r: Result<(Seq<SpecAttribute>, bool, int), SpecTokenizeError>,
) -> Result<(Seq<SpecAttribute>, bool, int), SpecTokenizeError> {
    match r {
        Ok((rest, self_closing, end)) => Ok((prefix + rest, self_closing, end)),
        Err(e) => Err(e),
    }
}

/// The attribute list of a tag head, read at the cursor and terminated by
/// `>` or `/` `>`; the boolean says whether the tag is self-closing.
fn parse_attributes(input: &Vec<Token>, pos: &mut usize) -> (r: Result<
    (Vec<SnaxAttribute>, bool),
    TokenizeError,
>)
    requires
        *old(pos) <= input@.len(),
    ensures
        match r {
            Ok(parsed) => {
                &&& spec_attributes(tokens_view(input@), *old(pos) as int) == Ok::<
                    _,
                    SpecTokenizeError,
                >((attrs_view(parsed.0@), parsed.1, *final(pos) as int))
                &&& *final(pos) <= input@.len()
            },
            Err(e) => spec_attributes(tokens_view(input@), *old(pos) as int) == Err::<
                (Seq<SpecAttribute>, bool, int),
                _,
            >(e@),
        },
{
    let ghost ts = tokens_view(input@);
    let ghost start = *old(pos) as int;
    let mut attributes: Vec<SnaxAttribute> = Vec::new();
    loop
        invariant
            *pos <= input@.len(),
            ts == tokens_view(input@),
            start == *old(pos) as int,
            spec_attributes(ts, start) == with_attr_prefix(
                attrs_view(attributes@),
                spec_attributes(ts, *pos as int),
            ),
        decreases input@.len() - *pos,
    {
        let n = input.len();
        if *pos >= n {
            return Err(TokenizeError::UnexpectedEnd);
        }
        if is_punct_token(&input[*pos], '>') {
            proof {
                assert(attrs_view(attributes@) + Seq::<SpecAttribute>::empty() =~= attrs_view(
                    attributes@,
                ));
            }
            *pos += 1;
            return Ok((attributes, false));
        }
        if is_punct_token(&input[*pos], '/') {
            if *pos + 1 >= n {
                return Err(TokenizeError::UnexpectedEnd);
            }
            if is_punct_token(&input[*pos + 1], '>') {
                proof {
                    assert(attrs_view(attributes@) + Seq::<SpecAttribute>::empty() =~= attrs_view(
                        attributes@,
                    ));
                }
                *pos += 2;
                return Ok((attributes, true));
            }
            return Err(TokenizeError::UnexpectedToken(input[*pos + 1].clone()));
        }
        match &input[*pos] {
            Token::Ident(name) => {
                if *pos + 1 >= n {
                    return Err(TokenizeError::UnexpectedEnd);
                }
                if !is_punct_token(&input[*pos + 1], '=') {
                    return Err(TokenizeError::UnexpectedToken(input[*pos + 1].clone()));
                }
                if *pos + 2 >= n {
                    return Err(TokenizeError::UnexpectedEnd);
                }
                let value_ok = match &input[*pos + 2] {
                    Token::Literal(_) => true,
                    Token::Group(d, _) => *d == Delimiter::Brace,
                    _ => false,
                };
                if !value_ok {
                    return Err(TokenizeError::UnexpectedToken(input[*pos + 2].clone()));
                }
                let attr = SnaxAttribute::Simple {
                    name: name.clone(),
                    value: input[*pos + 2].clone(),
                };
                let ghost old_attrs = attributes@;
                let ghost p = *pos as int;
                attributes.push(attr);
                proof {
                    let av = attribute_view(attr);
                    assert(ts[p] == SpecToken::Ident(name@));
                    assert(av == SpecAttribute::Simple { name: name@, value: ts[p + 2] });
                    assert(attrs_view(attributes@) =~= attrs_view(old_attrs).push(av));
                    match spec_attributes(ts, p + 3) {
                        Ok(rest) => {
                            assert(attrs_view(old_attrs) + (seq![av] + rest.0) =~= attrs_view(
                                attributes@,
                            ) + rest.0);
                        },
                        Err(e) => {},
                    }
                }
                *pos += 3;
            },
            _ => {
                return Err(TokenizeError::UnexpectedToken(input[*pos].clone()));
            },
        }
    }
}

/// Produces the markup token at the cursor, or reports stream exhaustion or
/// malformed input, advancing the cursor past what was consumed.
pub fn parse_html_token(input: &Vec<Token>, pos: &mut usize) -> (r: Result<
    HtmlToken,
    TokenizeError,
>)
    requires
        *old(pos) <= input@.len(),
    ensures
        match r {
            Ok(ht) => {
                &&& spec_next_markup_token(tokens_view(input@), *old(pos) as int) == Ok::<
                    _,
                    SpecTokenizeError,
                >((ht@, *final(pos) as int))
                &&& *final(pos) <= input@.len()
            },
            Err(e) => spec_next_markup_token(tokens_view(input@), *old(pos) as int) == Err::<
                (SpecHtmlToken, int),
                _,
            >(e@),
        },
{
    let n = input.len();
    if *pos >= n {
        return Err(TokenizeError::UnexpectedEnd);
    }
    if is_punct_token(&input[*pos], '<') {
        if *pos + 1 >= n {
            return Err(TokenizeError::UnexpectedEnd);
        }
        if is_punct_token(&input[*pos + 1], '/') {
            if *pos + 2 >= n {
                return Err(TokenizeError::UnexpectedEnd);
            }
            match &input[*pos + 2] {
                Token::Ident(name) => {
                    if *pos + 3 >= n {
                        return Err(TokenizeError::UnexpectedEnd);
                    }
                    if is_punct_token(&input[*pos + 3], '>') {
                        let name = name.clone();
                        *pos += 4;
                        return Ok(HtmlToken::CloseTag(HtmlCloseToken { name }));
                    }
                    return Err(TokenizeError::UnexpectedToken(input[*pos + 3].clone()));
                },
                _ => {
                    return Err(TokenizeError::UnexpectedToken(input[*pos + 2].clone()));
                },
            }
        }
        match &input[*pos + 1] {
            Token::Ident(name) => {
                let name = name.clone();
                *pos += 2;
                match parse_attributes(input, pos) {
                    Ok((attributes, self_closing)) => {
                        if self_closing {
                            Ok(
                                HtmlToken::SelfClosingTag(
                                    HtmlSelfClosingToken { name, attributes },
                                ),
                            )
                        } else {
                            Ok(HtmlToken::OpenTag(HtmlOpenToken { name, attributes }))
                        }
                    },
                    Err(e) => Err(e),
                }
            },
            _ => Err(TokenizeError::UnexpectedToken(input[*pos + 1].clone())),
        }
    } else {
        match &input[*pos] {
            Token::Punct(_, _) => Err(TokenizeError::UnexpectedToken(input[*pos].clone())),
            _ => {
                let content = input[*pos].clone();
                *pos += 1;
                Ok(HtmlToken::Textish(HtmlTextishToken { content }))
            },
        }
    }
}

} // verus!
