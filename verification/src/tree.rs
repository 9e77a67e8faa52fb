//! The output tree: tags with attributes and children, self-closing tags, and
//! opaque content leaves, together with their mathematical models.

use vstd::prelude::*;

use crate::token::SpecToken;
use crate::token::Token;
use crate::token::token_view;

verus! {

broadcast use vstd::std_specs::vec::group_vec_axioms;

/// An attribute that's present on either a [`SnaxTag`] or a
/// [`SnaxSelfClosingTag`]: a name and a value token. The value is either a
/// literal or a brace-delimited group carried verbatim.
#[derive(Debug)]
pub enum SnaxAttribute {
    Simple { name: String, value: Token },
}

/// A standard tag, which can have attributes and children.
#[derive(Debug)]
pub struct SnaxTag {
    pub name: String,
    pub attributes: Vec<SnaxAttribute>,
    pub children: Vec<SnaxItem>,
}

/// A self-closing tag, which has attributes but no children.
///
/// Unclosed tags are never closed implicitly: a childless tag must be written
/// in the self-closing form.
#[derive(Debug)]
pub struct SnaxSelfClosingTag {
    pub name: String,
    pub attributes: Vec<SnaxAttribute>,
}

/// One complete node of the output tree.
#[derive(Debug)]
pub enum SnaxItem {
    /// A standard tag, which can have attributes and children.
    Tag(SnaxTag),
    /// An empty tag, which can only have attributes.
    SelfClosingTag(SnaxSelfClosingTag),
    /// A block of content: one token, carried verbatim and never interpreted.
    Content(Token),
}

/// The model of an attribute.
pub enum SpecAttribute {
    Simple { name: Seq<char>, value: SpecToken },
}

/// The model of a standard tag.
pub struct SpecTag {
    pub name: Seq<char>,
    pub attributes: Seq<SpecAttribute>,
    pub children: Seq<SpecItem>,
}

/// The model of a self-closing tag.
pub struct SpecSelfClosingTag {
    pub name: Seq<char>,
    pub attributes: Seq<SpecAttribute>,
}

/// The model of a tree node.
pub enum SpecItem {
    Tag(SpecTag),
    SelfClosingTag(SpecSelfClosingTag),
    Content(SpecToken),
}

/// The model of one attribute.
pub open spec fn attribute_view(a: SnaxAttribute) -> SpecAttribute {
    match a {
        SnaxAttribute::Simple { name, value } => SpecAttribute::Simple {
            name: name@,
            value: token_view(value),
        },
    }
}

/// The model of an attribute sequence, element by element.
pub open spec fn attrs_view(attrs: Seq<SnaxAttribute>) -> Seq<SpecAttribute> {
    Seq::new(attrs.len(), |i: int| attribute_view(attrs[i]))
}

/// The model of a tree node.
pub open spec fn item_view(item: SnaxItem) -> SpecItem
    decreases item,
{
    match item {
        SnaxItem::Tag(tag) => SpecItem::Tag(
            SpecTag {
                name: tag.name@,
                attributes: attrs_view(tag.attributes@),
                children: items_view(tag.children@),
            },
        ),
        SnaxItem::SelfClosingTag(tag) => SpecItem::SelfClosingTag(
            SpecSelfClosingTag { name: tag.name@, attributes: attrs_view(tag.attributes@) },
        ),
        SnaxItem::Content(t) => SpecItem::Content(token_view(t)),
    }
}

/// The model of a node sequence, element by element.
pub open spec fn items_view(items: Seq<SnaxItem>) -> Seq<SpecItem>
    decreases items,
{
    if items.len() == 0 {
        Seq::empty()
    } else {
        items_view(items.drop_last()).push(item_view(items.last()))
    }
}

impl View for SnaxAttribute {
    type V = SpecAttribute;

    open spec fn view(&self) -> SpecAttribute {
        attribute_view(*self)
    }
}

impl View for SnaxTag {
    type V = SpecTag;

    open spec fn view(&self) -> SpecTag {
        SpecTag {
            name: self.name@,
            attributes: attrs_view(self.attributes@),
            children: items_view(self.children@),
        }
    }
}

impl View for SnaxSelfClosingTag {
    type V = SpecSelfClosingTag;

    open spec fn view(&self) -> SpecSelfClosingTag {
        SpecSelfClosingTag { name: self.name@, attributes: attrs_view(self.attributes@) }
    }
}

impl View for SnaxItem {
    type V = SpecItem;

    open spec fn view(&self) -> SpecItem {
        item_view(*self)
    }
}

/// A node sequence and its model have the same length.
pub broadcast proof fn lemma_items_view_len(items: Seq<SnaxItem>)
    ensures
        (#[trigger] items_view(items)).len() == items.len(),
    decreases items,
{
    if items.len() > 0 {
        lemma_items_view_len(items.drop_last());
    }
}

/// The model of a node sequence is the model of each of its nodes in turn.
pub broadcast proof fn lemma_items_view_index(items: Seq<SnaxItem>, i: int)
    requires
        0 <= i < items.len(),
    ensures
        #[trigger] items_view(items)[i] == item_view(items[i]),
    decreases items,
{
    lemma_items_view_len(items.drop_last());
    if i < items.len() - 1 {
        lemma_items_view_index(items.drop_last(), i);
    }
}

impl vstd::std_specs::cmp::PartialEqSpecImpl for SnaxAttribute {
    open spec fn obeys_eq_spec() -> bool {
        true
    }

    open spec fn eq_spec(&self, other: &SnaxAttribute) -> bool {
        attribute_view(*self) == attribute_view(*other)
    }
}

impl PartialEq for SnaxAttribute {
    /// Two attributes are equal when their models are: same name and equal
    /// value tokens.
    fn eq(&self, other: &Self) -> (r: bool) {
        match (self, other) {
            (
                SnaxAttribute::Simple { name, value },
                SnaxAttribute::Simple { name: other_name, value: other_value },
            ) => *name == *other_name && *value == *other_value,
        }
    }
}

/// Pairwise equality of two attribute sequences, by their models.
fn attrs_eq(a: &Vec<SnaxAttribute>, b: &Vec<SnaxAttribute>) -> (r: bool)
    ensures
        r == (attrs_view(a@) == attrs_view(b@)),
{
    if a.len() != b.len() {
        proof {
            assert(attrs_view(a@).len() == a@.len());
            assert(attrs_view(b@).len() == b@.len());
        }
        return false;
    }
    let mut i: usize = 0;
    while i < a.len()
        invariant
            i <= a.len(),
            a@.len() == b@.len(),
            forall|j: int| 0 <= j < i ==> attribute_view(a@[j]) == attribute_view(b@[j]),
        decreases a.len() - i,
    {
        if !(a[i] == b[i]) {
            proof {
                assert(attrs_view(a@)[i as int] != attrs_view(b@)[i as int]);
            }
            return false;
        }
        i += 1;
    }
    proof {
        assert(attrs_view(a@) =~= attrs_view(b@));
    }
    true
}

impl vstd::std_specs::cmp::PartialEqSpecImpl for SnaxTag {
    open spec fn obeys_eq_spec() -> bool {
        true
    }

    open spec fn eq_spec(&self, other: &SnaxTag) -> bool {
        self@ == other@
    }
}

impl PartialEq for SnaxTag {
    /// Two tags are equal when their models are: same name, pairwise-equal
    /// attributes, and pairwise-equal children.
    fn eq(&self, other: &Self) -> (r: bool)
        decreases *self,
    {
        self.name == other.name && attrs_eq(&self.attributes, &other.attributes) && items_eq(
            &self.children,
            &other.children,
        )
    }
}

impl vstd::std_specs::cmp::PartialEqSpecImpl for SnaxSelfClosingTag {
    open spec fn obeys_eq_spec() -> bool {
        true
    }

    open spec fn eq_spec(&self, other: &SnaxSelfClosingTag) -> bool {
        self@ == other@
    }
}

impl PartialEq for SnaxSelfClosingTag {
    /// Two self-closing tags are equal when their models are: same name and
    /// pairwise-equal attributes.
    fn eq(&self, other: &Self) -> (r: bool) {
        self.name == other.name && attrs_eq(&self.attributes, &other.attributes)
    }
}

impl vstd::std_specs::cmp::PartialEqSpecImpl for SnaxItem {
    open spec fn obeys_eq_spec() -> bool {
        true
    }

    open spec fn eq_spec(&self, other: &SnaxItem) -> bool {
        item_view(*self) == item_view(*other)
    }
}

impl PartialEq for SnaxItem {
    /// Two tree nodes are equal when their models are.
    fn eq(&self, other: &Self) -> (r: bool)
        decreases *self,
    {
        match (self, other) {
            (SnaxItem::Tag(a), SnaxItem::Tag(b)) => *a == *b,
            (SnaxItem::SelfClosingTag(a), SnaxItem::SelfClosingTag(b)) => *a == *b,
            (SnaxItem::Content(a), SnaxItem::Content(b)) => *a == *b,
            _ => false,
        }
    }
}

/// Pairwise equality of two node sequences, by their models.
fn items_eq(a: &Vec<SnaxItem>, b: &Vec<SnaxItem>) -> (r: bool)
    ensures
        r == (items_view(a@) == items_view(b@)),
    decreases a@,
{
    if a.len() != b.len() {
        proof {
            lemma_items_view_len(a@);
            lemma_items_view_len(b@);
        }
        return false;
    }
    let mut i: usize = 0;
    while i < a.len()
        invariant
            i <= a.len(),
            a@.len() == b@.len(),
            forall|j: int| 0 <= j < i ==> item_view(a@[j]) == item_view(b@[j]),
        decreases a.len() - i,
    {
        if !(a[i] == b[i]) {
            proof {
                lemma_items_view_len(a@);
                lemma_items_view_len(b@);
                lemma_items_view_index(a@, i as int);
                lemma_items_view_index(b@, i as int);
            }
            return false;
        }
        i += 1;
    }
    proof {
        lemma_items_view_len(a@);
        lemma_items_view_len(b@);
        assert forall|j: int| 0 <= j < items_view(a@).len() implies items_view(a@)[j]
            == items_view(b@)[j] by {
            lemma_items_view_index(a@, j);
            lemma_items_view_index(b@, j);
        }
        assert(items_view(a@) =~= items_view(b@));
    }
    true
}

} // verus!
