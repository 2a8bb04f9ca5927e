//! The records the service stores and the shapes of its requests and
//! responses.
use vstd::prelude::*;
use crate::text::{zero_padded, zero_padded_string, push_str, owned};
use crate::printing::LabelStyle;

verus! {

/// An item or a container. `quantity_bits` holds the IEEE-754 binary64 bit
/// pattern of the quantity, carried unchanged.
#[derive(Debug)]
pub struct Element {
    pub serial: i64,
    pub kind: String,
    pub tag_a: String,
    pub tag_b: i64,
    pub tag_c: i64,
    pub name: String,
    pub description: String,
    pub quantity_bits: u64,
    pub unit: String,
    pub parent_serial: Option<i64>,
    pub image_mime: Option<String>,
    pub created_at: String,
    pub updated_at: String,
    pub deleted_at: Option<String>,
}

/// The full identifier `A-BB-CC-DDDDDD`: the category letter, the two tags
/// padded to two digits and the serial padded to six digits.
pub open spec fn code_of(tag_a: Seq<char>, tag_b: i64, tag_c: i64, serial: i64) -> Seq<char> {
    tag_a + seq!['-'] + zero_padded(tag_b as int, 2) + seq!['-'] + zero_padded(tag_c as int, 2)
        + seq!['-'] + zero_padded(serial as int, 6)
}

pub fn clone_text(s: &Option<String>) -> (r: Option<String>)
    ensures
        r == *s,
{
    match s {
        Some(t) => Some(t.clone()),
        None => None,
    }
}

impl Clone for Element {
    fn clone(&self) -> (r: Self)
        ensures
            r == *self,
    {
        Element {
            serial: self.serial,
            kind: self.kind.clone(),
            tag_a: self.tag_a.clone(),
            tag_b: self.tag_b,
            tag_c: self.tag_c,
            name: self.name.clone(),
            description: self.description.clone(),
            quantity_bits: self.quantity_bits,
            unit: self.unit.clone(),
            parent_serial: self.parent_serial,
            image_mime: clone_text(&self.image_mime),
            created_at: self.created_at.clone(),
            updated_at: self.updated_at.clone(),
            deleted_at: clone_text(&self.deleted_at),
        }
    }
}

impl Element {
    pub open spec fn code_spec(&self) -> Seq<char> {
        code_of(self.tag_a@, self.tag_b, self.tag_c, self.serial)
    }

    /// The full identifier of the element.
    pub fn code(&self) -> (s: String)
        ensures
            s@ == self.code_spec(),
    {
        let mut s = owned(self.tag_a.as_str());
        push_str(&mut s, "-");
        let b = zero_padded_string(self.tag_b, 2);
        push_str(&mut s, b.as_str());
        push_str(&mut s, "-");
        let c = zero_padded_string(self.tag_c, 2);
        push_str(&mut s, c.as_str());
        push_str(&mut s, "-");
        let d = zero_padded_string(self.serial, 6);
        push_str(&mut s, d.as_str());
        proof {
            reveal_strlit("-");
        }
        s
    }
}

/// An element as the service shows it: with its full identifier and whether
/// it has an image.
#[derive(Debug)]
pub struct ElementView {
    pub element: Element,
    pub code: String,
    pub has_image: bool,
}

impl ElementView {
    /// The view of `element` is `element` itself, its code, and whether it
    /// has an image.
    pub open spec fn shows(&self, element: Element) -> bool {
        &&& self.element == element
        &&& self.code@ == element.code_spec()
        &&& self.has_image == element.image_mime is Some
    }

    pub fn from_element(element: Element) -> (v: ElementView)
        ensures
            v.shows(element),
    {
        let code = element.code();
        let has_image = element.image_mime.is_some();
        ElementView { element, code, has_image }
    }
}

/// The request to create an element. `quantity_bits` holds the bit pattern of
/// the binary64 quantity.
#[derive(Debug)]
pub struct CreateElement {
    pub kind: String,
    pub tag_a: String,
    pub tag_b: i64,
    pub tag_c: i64,
    pub name: String,
    pub description: String,
    pub quantity_bits: u64,
    pub unit: String,
    pub parent_serial: Option<i64>,
}

/// The request to change an element. `quantity_bits` holds the bit pattern of
/// the binary64 quantity.
#[derive(Debug)]
pub struct UpdateElement {
    pub kind: String,
    pub tag_a: String,
    pub tag_b: i64,
    pub tag_c: i64,
    pub name: String,
    pub description: String,
    pub quantity_bits: u64,
    pub unit: String,
    pub parent_serial: Option<i64>,
}

/// The name given to a category letter.
#[derive(Debug)]
pub struct CategoryMapping {
    pub tag_a: String,
    pub name: Option<String>,
}

/// The name given to a second tag under a category letter.
#[derive(Debug)]
pub struct MnemonicMapping {
    pub tag_a: String,
    pub tag_b: i64,
    pub name: Option<String>,
}

/// The body of a request that names a mapping.
#[derive(Debug)]
pub struct MappingName {
    pub name: Option<String>,
}

/// A node of the storage tree: an element and the nodes of its children.
#[derive(Debug)]
pub struct TreeNode {
    pub element: ElementView,
    pub children: Vec<TreeNode>,
}

/// What becomes of the children of a container that is removed.
#[derive(PartialEq, Eq, Structural, Clone, Copy, Debug)]
pub enum DeleteMode {
    MoveToParent,
    MoveToContainer,
    Cascade,
}

#[derive(Debug)]
pub struct DeleteRequest {
    pub mode: Option<DeleteMode>,
    pub target_serial: Option<i64>,
}

#[derive(Debug)]
pub struct SearchQuery {
    pub q: Option<String>,
    pub include_deleted: Option<bool>,
}

/// An element found by a lookup, with its path from the outermost container
/// down to the element itself.
#[derive(Debug)]
pub struct ElementLookupView {
    pub element: ElementView,
    pub path: Vec<ElementView>,
}

#[derive(Debug)]
pub struct PrintRequest {
    pub style: LabelStyle,
}

} // verus!

verus! {

/// An element whose identifier parts have their documented shape: one
/// upper-case letter, two tags in `0..=99` and a serial of at most six digits.
pub open spec fn well_shaped(tag_a: Seq<char>, tag_b: i64, tag_c: i64, serial: i64) -> bool {
    &&& tag_a.len() == 1
    &&& crate::text::is_ascii_upper(tag_a[0])
    &&& 0 <= tag_b <= 99
    &&& 0 <= tag_c <= 99
    &&& 0 <= serial <= 999_999
}

/// The identifier of a well-shaped element is `A-BB-CC-DDDDDD`, fourteen
/// characters long, and tells the element's parts apart: two well-shaped
/// elements with the same identifier have the same letter, tags and serial.
pub proof fn law_code_identifies_parts(
    a1: Seq<char>,
    b1: i64,
    c1: i64,
    s1: i64,
    a2: Seq<char>,
    b2: i64,
    c2: i64,
    s2: i64,
)
    requires
        well_shaped(a1, b1, c1, s1),
        well_shaped(a2, b2, c2, s2),
    ensures
        code_of(a1, b1, c1, s1).len() == 14,
        code_of(a1, b1, c1, s1)[1] == '-' && code_of(a1, b1, c1, s1)[4] == '-' && code_of(
            a1,
            b1,
            c1,
            s1,
        )[7] == '-',
        code_of(a1, b1, c1, s1) == code_of(a2, b2, c2, s2) ==> a1 == a2 && b1 == b2 && c1 == c2
            && s1 == s2,
{
    crate::text::lemma_pow10_small();
    crate::text::lemma_zero_padded_shape(b1 as int, 2);
    crate::text::lemma_zero_padded_shape(c1 as int, 2);
    crate::text::lemma_zero_padded_shape(s1 as int, 6);
    crate::text::lemma_zero_padded_shape(b2 as int, 2);
    crate::text::lemma_zero_padded_shape(c2 as int, 2);
    crate::text::lemma_zero_padded_shape(s2 as int, 6);
    let x = code_of(a1, b1, c1, s1);
    let y = code_of(a2, b2, c2, s2);
    assert(x.len() == 14);
    assert(x[1] == '-' && x[4] == '-' && x[7] == '-');
    if x == y {
        assert(a1 =~= x.subrange(0, 1));
        assert(a2 =~= y.subrange(0, 1));
        assert(zero_padded(b1 as int, 2) =~= x.subrange(2, 4));
        assert(zero_padded(b2 as int, 2) =~= y.subrange(2, 4));
        assert(zero_padded(c1 as int, 2) =~= x.subrange(5, 7));
        assert(zero_padded(c2 as int, 2) =~= y.subrange(5, 7));
        assert(zero_padded(s1 as int, 6) =~= x.subrange(8, 14));
        assert(zero_padded(s2 as int, 6) =~= y.subrange(8, 14));
    }
}

} // verus!
