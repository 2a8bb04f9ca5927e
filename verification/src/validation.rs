//! Validation of the fields of an element before it is created or changed.
use vstd::prelude::*;
use crate::error::{AppError, ErrorKind};
use crate::models::{CreateElement, UpdateElement};
use crate::text::{chars_of, trim_bounds, to_upper_char, push_char, trim, trim_start, trim_end, upper_seq, is_ascii_alpha, is_ascii_upper};

verus! {

/// The fields of a create or update request that validation reads.
pub struct InputFields {
    pub kind: Seq<char>,
    pub tag_a: Seq<char>,
    pub tag_b: i64,
    pub tag_c: i64,
    pub name: Seq<char>,
    pub quantity_bits: u64,
}

/// A request that carries the fields of an element.
pub trait ElementInput {
    spec fn fields(&self) -> InputFields;

    fn kind(&self) -> (r: &str)
        ensures
            r@ == self.fields().kind,
    ;

    fn tag_a(&self) -> (r: &str)
        ensures
            r@ == self.fields().tag_a,
    ;

    fn tag_b(&self) -> (r: i64)
        ensures
            r == self.fields().tag_b,
    ;

    fn tag_c(&self) -> (r: i64)
        ensures
            r == self.fields().tag_c,
    ;

    fn name(&self) -> (r: &str)
        ensures
            r@ == self.fields().name,
    ;

    /// The bit pattern of the binary64 quantity.
    fn quantity_bits(&self) -> (r: u64)
        ensures
            r == self.fields().quantity_bits,
    ;
}

impl ElementInput for CreateElement {
    open spec fn fields(&self) -> InputFields {
        InputFields {
            kind: self.kind@,
            tag_a: self.tag_a@,
            tag_b: self.tag_b,
            tag_c: self.tag_c,
            name: self.name@,
            quantity_bits: self.quantity_bits,
        }
    }

    fn kind(&self) -> (r: &str) {
        self.kind.as_str()
    }

    fn tag_a(&self) -> (r: &str) {
        self.tag_a.as_str()
    }

    fn tag_b(&self) -> (r: i64) {
        self.tag_b
    }

    fn tag_c(&self) -> (r: i64) {
        self.tag_c
    }

    fn name(&self) -> (r: &str) {
        self.name.as_str()
    }

    fn quantity_bits(&self) -> (r: u64) {
        self.quantity_bits
    }
}

impl ElementInput for UpdateElement {
    open spec fn fields(&self) -> InputFields {
        InputFields {
            kind: self.kind@,
            tag_a: self.tag_a@,
            tag_b: self.tag_b,
            tag_c: self.tag_c,
            name: self.name@,
            quantity_bits: self.quantity_bits,
        }
    }

    fn kind(&self) -> (r: &str) {
        self.kind.as_str()
    }

    fn tag_a(&self) -> (r: &str) {
        self.tag_a.as_str()
    }

    fn tag_b(&self) -> (r: i64) {
        self.tag_b
    }

    fn tag_c(&self) -> (r: i64) {
        self.tag_c
    }

    fn name(&self) -> (r: &str) {
        self.name.as_str()
    }

    fn quantity_bits(&self) -> (r: u64) {
        self.quantity_bits
    }
}

/// Whether two strings hold the same characters.
pub fn same_text(a: &str, b: &str) -> (r: bool)
    ensures
        r == (a@ == b@),
{
    let x = chars_of(a);
    let y = chars_of(b);
    if x.len() != y.len() {
        return false;
    }
    let mut i: usize = 0;
    while i < x.len()
        invariant
            i <= x.len() == y.len(),
            x@ == a@,
            y@ == b@,
            forall|k: int| 0 <= k < i ==> x@[k] == y@[k],
        decreases x.len() - i,
    {
        if x[i] != y[i] {
            return false;
        }
        i = i + 1;
    }
    assert(x@ =~= y@);
    true
}

/// The category letter that `value` stands for: the trimmed text in upper
/// case, when that is exactly one ASCII letter (one byte long and
/// alphabetic).
pub open spec fn tag_a_letter(value: Seq<char>) -> Option<Seq<char>> {
    let t = upper_seq(trim(value));
    if t.len() == 1 && is_ascii_alpha(t[0]) {
        Some(t)
    } else {
        None
    }
}

/// The category letter of `value`, trimmed and in upper case; a bad request
/// unless that is exactly one ASCII letter.
pub fn normalized_tag_a(value: &str) -> (r: Result<String, AppError>)
    ensures
        r matches Ok(s) ==> tag_a_letter(value@) == Some(s@),
        r matches Err(e) ==> tag_a_letter(value@) is None && e.is(
            ErrorKind::BadRequest,
            "类别位 A 必须是一个英文字母"@,
        ),
        r is Ok <==> trim(value@).len() == 1 && ('a' <= trim(value@)[0] <= 'z' || 'A' <= trim(value@)[0] <= 'Z'),
        r matches Ok(s) ==> names_letter(s@, trim(value@)[0]),
{
    proof {
        lemma_tag_a_letter_spelled_out(value@);
    }
    let chars = chars_of(value);
    let (start, end) = trim_bounds(&chars);
    if end - start == 1 {
        let c = to_upper_char(chars[start]);
        if ('A' <= c && c <= 'Z') || ('a' <= c && c <= 'z') {
            let mut s = String::new();
            push_char(&mut s, c);
            let ghost t = upper_seq(trim(value@));
            assert(trim(value@) == chars@.subrange(start as int, end as int));
            assert(t.len() == 1);
            assert(t[0] == c);
            assert(s@ =~= t);
            return Ok(s);
        }
    }
    Err(AppError::new(ErrorKind::BadRequest, "类别位 A 必须是一个英文字母"))
}

/// Whether the binary64 number with bit pattern `bits` is finite and not
/// less than zero: its exponent field is not all ones, and it is either
/// positive-signed or a negative zero.
pub open spec fn quantity_acceptable(bits: u64) -> bool {
    let exponent = (bits / 0x10_0000_0000_0000) % 0x800;
    let negative = bits / 0x8000_0000_0000_0000 == 1;
    let magnitude = bits % 0x8000_0000_0000_0000;
    exponent != 0x7ff && (!negative || magnitude == 0)
}

pub fn quantity_is_acceptable(bits: u64) -> (r: bool)
    ensures
        r == quantity_acceptable(bits),
{
    let exponent = (bits / 0x10_0000_0000_0000) % 0x800;
    let negative = bits / 0x8000_0000_0000_0000 == 1;
    let magnitude = bits % 0x8000_0000_0000_0000;
    exponent != 0x7ff && (!negative || magnitude == 0)
}

/// The outcome of validating fields `f`: the first failing rule gives its
/// error (kind and message); otherwise the normalized category letter.
pub open spec fn validation_outcome(f: InputFields) -> Result<Seq<char>, Seq<char>> {
    if f.kind != "item"@ && f.kind != "container"@ {
        Err("元素类型必须是 item 或 container"@)
    } else if !(0 <= f.tag_b <= 99) || !(0 <= f.tag_c <= 99) {
        Err("助记位 BB 和 CC 必须在 00 到 99 之间"@)
    } else if trim(f.name).len() == 0 {
        Err("名称不能为空"@)
    } else if !quantity_acceptable(f.quantity_bits) {
        Err("数量必须是非负有限数字"@)
    } else {
        match tag_a_letter(f.tag_a) {
            Some(t) => Ok(t),
            None => Err("类别位 A 必须是一个英文字母"@),
        }
    }
}

/// Checks the kind, the two tags, the name and the quantity of an element,
/// in that order, and gives its normalized category letter. Every failure is a
/// bad request.
pub fn validate_element<T: ElementInput>(input: &T) -> (r: Result<String, AppError>)
    ensures
        r is Ok <==> fields_acceptable(input.fields()),
        fields_acceptable(input.fields()) ==> (r matches Ok(s) && names_letter(
            s@,
            trim(input.fields().tag_a)[0],
        )),
        r matches Ok(s) ==> validation_outcome(input.fields()) == Ok::<Seq<char>, Seq<char>>(s@),
        r matches Err(e) ==> e.kind() == ErrorKind::BadRequest && validation_outcome(
            input.fields(),
        ) == Err::<Seq<char>, Seq<char>>(e.message()),
{
    if !same_text(input.kind(), "item") && !same_text(input.kind(), "container") {
        return Err(AppError::new(ErrorKind::BadRequest, "元素类型必须是 item 或 container"));
    }
    let b = input.tag_b();
    let c = input.tag_c();
    if !(0 <= b && b <= 99) || !(0 <= c && c <= 99) {
        return Err(AppError::new(ErrorKind::BadRequest, "助记位 BB 和 CC 必须在 00 到 99 之间"));
    }
    let name = chars_of(input.name());
    let (start, end) = trim_bounds(&name);
    if start == end {
        return Err(AppError::new(ErrorKind::BadRequest, "名称不能为空"));
    }
    if !quantity_is_acceptable(input.quantity_bits()) {
        return Err(AppError::new(ErrorKind::BadRequest, "数量必须是非负有限数字"));
    }
    let r = normalized_tag_a(input.tag_a());
    proof {
        if fields_acceptable(input.fields()) {
            law_acceptable_fields_pass(input.fields());
        }
        if r is Ok {
            law_valid_fields(input.fields());
        }
    }
    r
}

} // verus!

verus! {

/// A normalized category letter normalizes to itself.
pub proof fn law_tag_a_normalization_is_idempotent(value: Seq<char>)
    requires
        tag_a_letter(value) is Some,
    ensures
        tag_a_letter(tag_a_letter(value)->0) == tag_a_letter(value),
        is_ascii_upper(tag_a_letter(value)->0[0]),
{
    let t = tag_a_letter(value)->0;
    assert(t.len() == 1);
    let c = t[0];
    assert(is_ascii_upper(c));
    assert(trim_start(t) == t);
    assert(trim_end(t) == t);
    assert(upper_seq(t) =~= t);
}

/// Every element that passes validation has a kind of `item` or
/// `container`, both tags in `0..=99`, a name that is not blank, a quantity
/// that is finite and not negative, and an upper-case category letter.
pub proof fn law_valid_fields(f: InputFields)
    requires
        validation_outcome(f) is Ok,
    ensures
        f.kind == "item"@ || f.kind == "container"@,
        0 <= f.tag_b <= 99,
        0 <= f.tag_c <= 99,
        trim(f.name).len() > 0,
        quantity_acceptable(f.quantity_bits),
        validation_outcome(f)->Ok_0.len() == 1,
        is_ascii_upper(validation_outcome(f)->Ok_0[0]),
        fields_acceptable(f),
        names_letter(validation_outcome(f)->Ok_0, trim(f.tag_a)[0]),
{
    law_tag_a_normalization_is_idempotent(f.tag_a);
    let c = trim(f.tag_a)[0];
    if 'a' <= c <= 'z' {
        assert(((c as u32) - 32) as char as int + 32 == c as int);
    }
}

} // verus!

verus! {

/// Fields that every rule accepts: the kind is `item` or `container`, both
/// tags lie in `0..=99`, the name is not blank, the quantity is a finite
/// binary64 number that is not below zero (its exponent field is not all
/// ones, and it has a clear sign bit or is a zero), and the category letter,
/// trimmed, is one ASCII letter.
pub open spec fn fields_acceptable(f: InputFields) -> bool {
    let exponent = (f.quantity_bits / 0x10_0000_0000_0000) % 0x800;
    let sign = f.quantity_bits / 0x8000_0000_0000_0000;
    let magnitude = f.quantity_bits % 0x8000_0000_0000_0000;
    let letter = trim(f.tag_a);
    &&& f.kind == "item"@ || f.kind == "container"@
    &&& 0 <= f.tag_b <= 99
    &&& 0 <= f.tag_c <= 99
    &&& trim(f.name).len() > 0
    &&& exponent != 0x7ff
    &&& sign == 0 || magnitude == 0
    &&& letter.len() == 1
    &&& ('a' <= letter[0] <= 'z' || 'A' <= letter[0] <= 'Z')
}

/// `s` is the upper-case form of the ASCII letter `c`, and nothing more.
pub open spec fn names_letter(s: Seq<char>, c: char) -> bool {
    &&& s.len() == 1
    &&& 'A' <= s[0] <= 'Z'
    &&& (s[0] == c || s[0] as int + 32 == c as int)
}

/// Validation accepts every element whose fields all meet the rules, and
/// gives the upper-case form of its category letter.
pub proof fn law_acceptable_fields_pass(f: InputFields)
    requires
        fields_acceptable(f),
    ensures
        (validation_outcome(f) matches Ok(t) && names_letter(t, trim(f.tag_a)[0])),
{
    let c = trim(f.tag_a)[0];
    let t = upper_seq(trim(f.tag_a));
    assert(t.len() == 1);
    assert(t[0] == crate::text::ascii_upper(c));
    if 'a' <= c <= 'z' {
        assert(((c as u32) - 32) as char as int + 32 == c as int);
    }
}

} // verus!

verus! {

/// A category letter is accepted exactly when its trimmed text is one ASCII
/// letter, and it then reads as that letter in upper case.
pub proof fn lemma_tag_a_letter_spelled_out(value: Seq<char>)
    ensures
        tag_a_letter(value) is Some <==> trim(value).len() == 1 && ('a' <= trim(value)[0] <= 'z' || 'A'
            <= trim(value)[0] <= 'Z'),
        tag_a_letter(value) matches Some(t) ==> names_letter(t, trim(value)[0]),
{
    let t = trim(value);
    if t.len() == 1 {
        let c = t[0];
        assert(upper_seq(t)[0] == crate::text::ascii_upper(c));
        if 'a' <= c <= 'z' {
            assert(((c as u32) - 32) as char as int + 32 == c as int);
            assert('A' <= ((c as u32) - 32) as char <= 'Z');
        }
    }
}

} // verus!
