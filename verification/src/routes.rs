//! The decisions behind the service's endpoints: what a request is refused
//! with, how search terms are formed, where a restored element goes, which
//! files hold an element's image, the path of an element through its
//! containers and the storage tree. The database queries and file operations
//! between these decisions stand outside this crate.
use vstd::prelude::*;
use crate::error::{AppError, ErrorKind, fails};
use crate::models::{CreateElement, Element, SearchQuery, UpdateElement};
use crate::printing::{LabelStyle, LabelPayload, lists_children, payload, sort_children};
use crate::text::{concat2, concat3, owned, trim, trimmed, zero_padded, zero_padded_string, chars_of, trim_bounds};
use crate::validation::same_text;

verus! {

/// The element a query found, or the error for a serial that no element has.
pub fn found_element(row: Option<Element>) -> (r: Result<Element, AppError>)
    ensures
        match row {
            Some(e) => r == Ok::<Element, AppError>(e),
            None => fails(r, ErrorKind::NotFound, "未找到该序列号"@),
        },
{
    match row {
        Some(e) => Ok(e),
        None => Err(AppError::new(ErrorKind::NotFound, "未找到该序列号")),
    }
}

// ---------------------------------------------------------------------------
// Labels
// ---------------------------------------------------------------------------

/// A label is printed only for an element that is not deleted, and a B1 or
/// B2 label only for a container.
pub fn check_printable(element: &Element, style: LabelStyle) -> (r: Result<(), AppError>)
    ensures
        element.deleted_at is Some ==> fails(r, ErrorKind::Conflict, "不能打印已删除元素的标签"@),
        element.deleted_at is None && lists_children(style) && element.kind@ != "container"@
            ==> fails(r, ErrorKind::BadRequest, "B1、B2 标签仅适用于容器"@),
        element.deleted_at is None && !(lists_children(style) && element.kind@
            != "container"@) ==> r is Ok,
{
    if element.deleted_at.is_some() {
        return Err(AppError::new(ErrorKind::Conflict, "不能打印已删除元素的标签"));
    }
    if style.includes_children() && !same_text(element.kind.as_str(), "container") {
        return Err(AppError::new(ErrorKind::BadRequest, "B1、B2 标签仅适用于容器"));
    }
    Ok(())
}

/// The request for a label of `style` for `element`: its children (the
/// container's live children for B1 and B2, none otherwise) are listed in
/// label order.
pub fn label_request(element: &Element, style: LabelStyle, children: Vec<Element>) -> (p: LabelPayload)
    ensures
        exists|sorted: Seq<Element>|
            {
                &&& crate::printing::sorted_by_key(sorted)
                &&& forall|k: (Seq<char>, i64, i64, i64)| #[trigger]
                    crate::printing::with_key(sorted, k) == crate::printing::with_key(children@, k)
                &&& p.describes(*element, style, sorted)
            },
{
    let mut children = children;
    sort_children(&mut children);
    payload(element, style, &children)
}

// ---------------------------------------------------------------------------
// Creating and changing elements
// ---------------------------------------------------------------------------

/// What a query of a prospective parent found: its kind and whether it is
/// deleted.
#[derive(Debug)]
pub struct ParentRow {
    pub kind: String,
    pub deleted: bool,
}

/// A parent must exist and be a container that is not deleted.
pub fn check_parent(row: Option<ParentRow>) -> (r: Result<(), AppError>)
    ensures
        match row {
            Some(p) => if p.kind@ == "container"@ && !p.deleted {
                r is Ok
            } else {
                fails(r, ErrorKind::BadRequest, "父级必须是未删除的容器"@)
            },
            None => fails(r, ErrorKind::BadRequest, "父容器序列号不存在"@),
        },
{
    match row {
        Some(p) => {
            if same_text(p.kind.as_str(), "container") && !p.deleted {
                Ok(())
            } else {
                Err(AppError::new(ErrorKind::BadRequest, "父级必须是未删除的容器"))
            }
        },
        None => Err(AppError::new(ErrorKind::BadRequest, "父容器序列号不存在")),
    }
}

/// Trims the name, the description and the unit of a new element.
pub fn tidy_create(input: &mut CreateElement)
    ensures
        final(input).name@ == trim(old(input).name@),
        final(input).description@ == trim(old(input).description@),
        final(input).unit@ == trim(old(input).unit@),
        final(input).kind == old(input).kind,
        final(input).tag_a == old(input).tag_a,
        final(input).tag_b == old(input).tag_b,
        final(input).tag_c == old(input).tag_c,
        final(input).quantity_bits == old(input).quantity_bits,
        final(input).parent_serial == old(input).parent_serial,
{
    input.name = trimmed(input.name.as_str());
    input.description = trimmed(input.description.as_str());
    input.unit = trimmed(input.unit.as_str());
}

/// Trims the name, the description and the unit of a changed element.
pub fn tidy_update(input: &mut UpdateElement)
    ensures
        final(input).name@ == trim(old(input).name@),
        final(input).description@ == trim(old(input).description@),
        final(input).unit@ == trim(old(input).unit@),
        final(input).kind == old(input).kind,
        final(input).tag_a == old(input).tag_a,
        final(input).tag_b == old(input).tag_b,
        final(input).tag_c == old(input).tag_c,
        final(input).quantity_bits == old(input).quantity_bits,
        final(input).parent_serial == old(input).parent_serial,
{
    input.name = trimmed(input.name.as_str());
    input.description = trimmed(input.description.as_str());
    input.unit = trimmed(input.unit.as_str());
}

/// The serial the counter handed out, or the error once all six-digit
/// serials are used.
pub fn allocated_serial(next: Option<i64>) -> (r: Result<i64, AppError>)
    ensures
        match next {
            Some(s) => r == Ok::<i64, AppError>(s),
            None => fails(r, ErrorKind::Conflict, "六位序列号已用尽"@),
        },
{
    match next {
        Some(s) => Ok(s),
        None => Err(AppError::new(ErrorKind::Conflict, "六位序列号已用尽")),
    }
}

// ---------------------------------------------------------------------------
// Searching
// ---------------------------------------------------------------------------

/// The terms of a search: the trimmed query text, the pattern that matches
/// it anywhere, and whether deleted elements are included.
#[derive(Debug)]
pub struct SearchTerms {
    pub q: String,
    pub pattern: String,
    pub include_deleted: bool,
}

pub fn search_terms(query: &SearchQuery) -> (t: SearchTerms)
    ensures
        t.q@ == trim(
            match query.q {
                Some(q) => q@,
                None => Seq::<char>::empty(),
            },
        ),
        t.pattern@ == seq!['%'] + t.q@ + seq!['%'],
        t.include_deleted == match query.include_deleted {
            Some(b) => b,
            None => false,
        },
{
    let q = match &query.q {
        Some(q) => trimmed(q.as_str()),
        None => String::new(),
    };
    proof {
        reveal_strlit("%");
        if query.q is None {
            assert(trim(Seq::<char>::empty()) =~= Seq::<char>::empty());
        }
    }
    let pattern = concat3("%", q.as_str(), "%");
    let include_deleted = match query.include_deleted {
        Some(b) => b,
        None => false,
    };
    SearchTerms { q, pattern, include_deleted }
}

// ---------------------------------------------------------------------------
// Previews and restoring elements
// ---------------------------------------------------------------------------

/// The deletion preview lists descendants only for a container.
pub fn is_container(element: &Element) -> (r: bool)
    ensures
        r == (element.kind@ == "container"@),
{
    same_text(element.kind.as_str(), "container")
}

/// Only a deleted element can be restored.
pub fn check_restorable(current: &Element) -> (r: Result<(), AppError>)
    ensures
        current.deleted_at is None ==> fails(r, ErrorKind::Conflict, "该元素未被删除"@),
        current.deleted_at is Some ==> r is Ok,
{
    if current.deleted_at.is_none() {
        return Err(AppError::new(ErrorKind::Conflict, "该元素未被删除"));
    }
    Ok(())
}

/// The parent a restored element gets: its former parent while that is still
/// a live container, and none otherwise.
pub fn restored_parent(former: Option<i64>, parent_available: bool) -> (r: Option<i64>)
    ensures
        r == if parent_available {
            former
        } else {
            None
        },
{
    if parent_available {
        former
    } else {
        None
    }
}

// ---------------------------------------------------------------------------
// Mappings
// ---------------------------------------------------------------------------

/// The name to store for a mapping: the trimmed name, or none when it is
/// missing or blank.
pub fn mapping_name(name: Option<String>) -> (r: Option<String>)
    ensures
        match name {
            Some(n) => if trim(n@).len() > 0 {
                r matches Some(s) && s@ == trim(n@)
            } else {
                r is None
            },
            None => r is None,
        },
{
    match name {
        Some(n) => {
            let t = trimmed(n.as_str());
            let len = chars_of(t.as_str()).len();
            if len > 0 {
                Some(t)
            } else {
                None
            }
        },
        None => None,
    }
}

/// The second tag of a mnemonic mapping is in `0..=99`.
pub fn check_mnemonic_tag(tag_b: i64) -> (r: Result<(), AppError>)
    ensures
        !(0 <= tag_b <= 99) ==> fails(r, ErrorKind::BadRequest, "助记位必须在 00 到 99 之间"@),
        0 <= tag_b <= 99 ==> r is Ok,
{
    if !(0 <= tag_b && tag_b <= 99) {
        return Err(AppError::new(ErrorKind::BadRequest, "助记位必须在 00 到 99 之间"));
    }
    Ok(())
}

/// A category letter that live elements use keeps its mapping.
pub fn check_category_unused(used: bool) -> (r: Result<(), AppError>)
    ensures
        used ==> fails(r, ErrorKind::Conflict, "该类别位仍被元素使用，只能清空名称，不能删除映射项"@),
        !used ==> r is Ok,
{
    if used {
        return Err(AppError::new(ErrorKind::Conflict, "该类别位仍被元素使用，只能清空名称，不能删除映射项"));
    }
    Ok(())
}

/// A second tag that live elements use keeps its mapping.
pub fn check_mnemonic_unused(used: bool) -> (r: Result<(), AppError>)
    ensures
        used ==> fails(r, ErrorKind::Conflict, "该助记位仍被元素使用，只能清空名称，不能删除映射项"@),
        !used ==> r is Ok,
{
    if used {
        return Err(AppError::new(ErrorKind::Conflict, "该助记位仍被元素使用，只能清空名称，不能删除映射项"));
    }
    Ok(())
}

/// Deleting a mapping that does not exist is reported.
pub fn check_mapping_deleted(rows_affected: u64) -> (r: Result<(), AppError>)
    ensures
        rows_affected == 0 ==> fails(r, ErrorKind::NotFound, "映射不存在"@),
        rows_affected != 0 ==> r is Ok,
{
    if rows_affected == 0 {
        return Err(AppError::new(ErrorKind::NotFound, "映射不存在"));
    }
    Ok(())
}

// ---------------------------------------------------------------------------
// Images
// ---------------------------------------------------------------------------

/// The image types the service stores.
pub open spec fn accepted_mime(m: Seq<char>) -> bool {
    m == "image/jpeg"@ || m == "image/png"@ || m == "image/webp"@ || m == "image/gif"@
}

/// An image is stored only for an element that is not deleted, only when
/// the body is not empty, and only for a JPEG, PNG, WebP or GIF content type
/// (a missing type counts as the empty text).
pub fn check_image_upload(element: &Element, body_len: usize, content_type: Option<&str>) -> (r: Result<String, AppError>)
    ensures
        element.deleted_at is Some ==> fails(r, ErrorKind::Conflict, "不能为已删除元素上传图片"@),
        element.deleted_at is None && body_len == 0 ==> fails(r, ErrorKind::BadRequest, "图片内容为空"@),
        element.deleted_at is None && body_len > 0 ==> {
            let m = match content_type {
                Some(t) => t@,
                None => Seq::<char>::empty(),
            };
            if accepted_mime(m) {
                r matches Ok(s) && s@ == m
            } else {
                fails(r, ErrorKind::BadRequest, "仅支持 JPEG、PNG、WebP 或 GIF 图片"@)
            }
        },
{
    if element.deleted_at.is_some() {
        return Err(AppError::new(ErrorKind::Conflict, "不能为已删除元素上传图片"));
    }
    if body_len == 0 {
        return Err(AppError::new(ErrorKind::BadRequest, "图片内容为空"));
    }
    let mime: &str = match content_type {
        Some(t) => t,
        None => "",
    };
    proof {
        reveal_strlit("");
        assert(""@ =~= Seq::<char>::empty());
    }
    if same_text(mime, "image/jpeg") || same_text(mime, "image/png") || same_text(mime, "image/webp")
        || same_text(mime, "image/gif") {
        Ok(owned(mime))
    } else {
        Err(AppError::new(ErrorKind::BadRequest, "仅支持 JPEG、PNG、WebP 或 GIF 图片"))
    }
}

/// The name of the file that holds the image of element `serial`: the
/// serial padded to six digits.
pub fn image_file_name(serial: i64) -> (s: String)
    ensures
        s@ == zero_padded(serial as int, 6),
        0 <= serial <= 999_999 ==> s@.len() == 6 && (forall|i: int|
            0 <= i < 6 ==> '0' <= #[trigger] s@[i] <= '9') && crate::text::digits_value(s@) == serial,
{
    proof {
        if 0 <= serial <= 999_999 {
            crate::text::lemma_pow10_small();
            crate::text::lemma_zero_padded_shape(serial as int, 6);
        }
    }
    zero_padded_string(serial, 6)
}

/// The name of the file an upload is written to before it replaces the
/// image: `.` + the padded serial + `.upload`.
pub fn upload_file_name(serial: i64) -> (s: String)
    ensures
        s@ == seq!['.'] + zero_padded(serial as int, 6) + ".upload"@,
{
    proof {
        reveal_strlit(".");
    }
    let name = zero_padded_string(serial, 6);
    concat3(".", name.as_str(), ".upload")
}

/// The stored type of an element's image, or the error for an element
/// without one.
pub fn stored_image_mime(mime: Option<String>) -> (r: Result<String, AppError>)
    ensures
        match mime {
            Some(m) => r == Ok::<String, AppError>(m),
            None => fails(r, ErrorKind::NotFound, "该元素没有图片"@),
        },
{
    match mime {
        Some(m) => Ok(m),
        None => Err(AppError::new(ErrorKind::NotFound, "该元素没有图片")),
    }
}

/// The error for an image whose file is missing.
pub fn missing_image_file() -> (e: AppError)
    ensures
        e.is(ErrorKind::NotFound, "图片文件不存在"@),
{
    AppError::new(ErrorKind::NotFound, "图片文件不存在")
}

} // verus!

verus! {

// ---------------------------------------------------------------------------
// The path of an element through its containers
// ---------------------------------------------------------------------------

pub proof fn lemma_difference_shrinks(dom: Set<i64>, visited: Set<i64>, p: i64)
    requires
        dom.finite(),
        dom.contains(p),
        !visited.contains(p),
    ensures
        dom.difference(visited.insert(p)).len() < dom.difference(visited).len(),
        dom.difference(visited.insert(p)).finite(),
{
    vstd::set_lib::lemma_set_subset_finite(dom, dom.difference(visited));
    assert(dom.difference(visited.insert(p)) =~= dom.difference(visited).remove(p));
}

/// The containers above an element, innermost first, found by following
/// parent serials through `m` from `parent`; `visited` holds the serials
/// already on the path. A serial met twice is a cycle, and a serial that `m`
/// lacks is missing data.
pub open spec fn climb(m: Map<i64, Element>, parent: Option<i64>, visited: Set<i64>) -> Result<Seq<Element>, Seq<char>>
    decreases m.dom().difference(visited).len(),
    when m.dom().finite()
{
    match parent {
        None => Ok(Seq::empty()),
        Some(p) => if visited.contains(p) {
            Err("检测到循环的父容器关系"@)
        } else if !m.contains_key(p) {
            Err("父容器数据不存在"@)
        } else {
            proof {
                lemma_difference_shrinks(m.dom(), visited, p);
            }
            match climb(m, m[p].parent_serial, visited.insert(p)) {
                Ok(rest) => Ok(seq![m[p]] + rest),
                Err(e) => Err(e),
            }
        },
    }
}

/// `chain` followed by what `rest` gives.
pub open spec fn after(chain: Seq<Element>, rest: Result<Seq<Element>, Seq<char>>) -> Result<Seq<Element>, Seq<char>> {
    match rest {
        Ok(r) => Ok(chain + r),
        Err(e) => Err(e),
    }
}

/// `views` shows `elements`, one for one.
pub open spec fn shows_all(views: Seq<crate::models::ElementView>, elements: Seq<Element>) -> bool {
    views.len() == elements.len() && forall|i: int| 0 <= i < views.len() ==> (#[trigger] views[i]).shows(elements[i])
}

fn reversed_views(path: Vec<crate::models::ElementView>) -> (r: Vec<crate::models::ElementView>)
    ensures
        r@ == path@.reverse(),
{
    let mut path = path;
    let ghost orig = path@;
    let mut out: Vec<crate::models::ElementView> = Vec::new();
    while path.len() > 0
        invariant
            path@ == orig.take(path@.len() as int),
            out@ == orig.skip(path@.len() as int).reverse(),
            path@.len() <= orig.len(),
        decreases path.len(),
    {
        let ghost n = path@.len();
        let v = path.pop().unwrap();
        assert(orig.skip(n - 1) =~= seq![orig[n - 1]] + orig.skip(n as int));
        assert(out@.push(v) =~= orig.skip(n - 1).reverse());
        out.push(v);
    }
    assert(orig.skip(0) =~= orig);
    out
}

/// The lookup view of `element`: its path runs from the outermost container
/// down to the element itself. A cycle among the parents, or a parent
/// missing from `by_serial`, is an internal error.
pub fn build_element_lookup(
    element: Element,
    by_serial: &std::collections::HashMap<i64, Element>,
) -> (r: Result<crate::models::ElementLookupView, AppError>)
    ensures
        match climb(by_serial@, element.parent_serial, set![element.serial]) {
            Ok(ancestors) => match r {
                Ok(v) => v.element.shows(element) && shows_all(
                    v.path@,
                    (seq![element] + ancestors).reverse(),
                ),
                Err(_) => false,
            },
            Err(m) => fails(r, ErrorKind::Internal, m),
        },
{
    broadcast use vstd::std_specs::hash::group_hash_axioms;
    let ghost m = by_serial@;
    proof {
        vstd::std_specs::hash::axiom_hashmap_view_finite_dom(*by_serial);
    }
    let mut path: Vec<crate::models::ElementView> = Vec::new();
    path.push(crate::models::ElementView::from_element(element.clone()));
    let mut parent = element.parent_serial;
    let mut visited: std::collections::HashSet<i64> = std::collections::HashSet::new();
    visited.insert(element.serial);
    let ghost mut chain: Seq<Element> = Seq::empty();
    assert(visited@ =~= set![element.serial]);
    while parent.is_some()
        invariant
            m == by_serial@,
            m.dom().finite(),
            shows_all(path@, seq![element] + chain),
            climb(m, element.parent_serial, set![element.serial]) == after(
                chain,
                climb(m, parent, visited@),
            ),
        decreases m.dom().difference(visited@).len(),
    {
        let p = parent.unwrap();
        let ghost before = visited@;
        if !visited.insert(p) {
            return Err(AppError::new(ErrorKind::Internal, "检测到循环的父容器关系"));
        }
        match by_serial.get(&p) {
            None => {
                return Err(AppError::new(ErrorKind::Internal, "父容器数据不存在"));
            },
            Some(pe) => {
                proof {
                    lemma_difference_shrinks(m.dom(), before, p);
                    assert(climb(m, parent, before) == after(
                        seq![m[p]],
                        climb(m, m[p].parent_serial, before.insert(p)),
                    ));
                    assert(chain + (seq![m[p]] + Seq::<Element>::empty()) =~= chain.push(m[p]));
                    assert forall|rest: Seq<Element>| chain + (seq![m[p]] + rest) =~= chain.push(m[p]) + rest by {}
                }
                parent = pe.parent_serial;
                path.push(crate::models::ElementView::from_element(pe.clone()));
                proof {
                    assert(seq![element] + chain.push(m[p]) =~= (seq![element] + chain).push(m[p]));
                    chain = chain.push(m[p]);
                }
            },
        }
    }
    proof {
        assert(chain + Seq::<Element>::empty() =~= chain);
    }
    let reversed = reversed_views(path);
    let ghost full = seq![element] + chain;
    assert forall|i: int| 0 <= i < reversed@.len() implies (#[trigger] reversed@[i]).shows(full.reverse()[i]) by {
        assert(reversed@[i] == path@[path@.len() - 1 - i]);
    }
    Ok(crate::models::ElementLookupView {
        element: crate::models::ElementView::from_element(element),
        path: reversed,
    })
}

} // verus!

verus! {

/// Every element of `m` is stored under its own serial.
pub open spec fn keyed_by_serial(m: Map<i64, Element>) -> bool {
    forall|k: i64| #[trigger] m.contains_key(k) ==> m[k].serial == k
}

proof fn lemma_climb_links(m: Map<i64, Element>, parent: Option<i64>, visited: Set<i64>)
    requires
        m.dom().finite(),
        keyed_by_serial(m),
        climb(m, parent, visited) is Ok,
    ensures
        ({
            let anc = climb(m, parent, visited)->Ok_0;
            &&& (anc.len() == 0 <==> parent is None)
            &&& anc.len() > 0 ==> parent == Some(anc[0].serial) && anc.last().parent_serial is None
            &&& forall|i: int|
                0 <= i < anc.len() - 1 ==> (#[trigger] anc[i]).parent_serial == Some(anc[i + 1].serial)
            &&& forall|i: int|
                0 <= i < anc.len() ==> m.contains_key((#[trigger] anc[i]).serial) && m[anc[i].serial]
                    == anc[i] && !visited.contains(anc[i].serial)
            &&& forall|i: int, j: int| 0 <= i < j < anc.len() ==> (#[trigger] anc[i]).serial != (#[trigger] anc[j]).serial
        }),
    decreases m.dom().difference(visited).len(),
{
    if let Some(p) = parent {
        lemma_difference_shrinks(m.dom(), visited, p);
        let next = m[p].parent_serial;
        lemma_climb_links(m, next, visited.insert(p));
        let rest = climb(m, next, visited.insert(p))->Ok_0;
        let anc = climb(m, parent, visited)->Ok_0;
        assert(anc == seq![m[p]] + rest);
        assert forall|i: int| 0 <= i < anc.len() - 1 implies (#[trigger] anc[i]).parent_serial == Some(anc[i + 1].serial) by {
            if i > 0 {
                assert(anc[i] == rest[i - 1]);
                assert(anc[i + 1] == rest[i]);
            }
        }
        assert forall|i: int| 0 <= i < anc.len() implies m.contains_key((#[trigger] anc[i]).serial) && m[anc[i].serial]
            == anc[i] && !visited.contains(anc[i].serial) by {
            if i > 0 {
                assert(anc[i] == rest[i - 1]);
            }
        }
        assert forall|i: int, j: int| 0 <= i < j < anc.len() implies (#[trigger] anc[i]).serial != (#[trigger] anc[j]).serial by {
            assert(anc[j] == rest[j - 1]);
            if i > 0 {
                assert(anc[i] == rest[i - 1]);
            } else {
                assert(!visited.insert(p).contains(rest[j - 1].serial));
            }
        }
    }
}

/// The path of a lookup runs from the outermost container down to the
/// element: it ends with the element, its first entry has no parent, each
/// entry is the parent of the one after it, and no element occurs twice.
pub proof fn law_lookup_path_runs_outward_in(m: Map<i64, Element>, e: Element)
    requires
        m.dom().finite(),
        keyed_by_serial(m),
        climb(m, e.parent_serial, set![e.serial]) is Ok,
    ensures
        ({
            let path = (seq![e] + climb(m, e.parent_serial, set![e.serial])->Ok_0).reverse();
            &&& path.last() == e
            &&& path[0].parent_serial is None
            &&& forall|i: int|
                0 <= i < path.len() - 1 ==> (#[trigger] path[i + 1]).parent_serial == Some(path[i].serial)
            &&& forall|i: int, j: int| 0 <= i < j < path.len() ==> (#[trigger] path[i]).serial != (#[trigger] path[j]).serial
        }),
{
    lemma_climb_links(m, e.parent_serial, set![e.serial]);
    let anc = climb(m, e.parent_serial, set![e.serial])->Ok_0;
    let full = seq![e] + anc;
    let path = full.reverse();
    let n = full.len();
    assert(path.last() == full[0]);
    assert(path[0] == full[n - 1]);
    assert forall|i: int| 0 <= i < path.len() - 1 implies (#[trigger] path[i + 1]).parent_serial == Some(path[i].serial) by {
        let k = n - 2 - i;
        assert(path[i + 1] == full[k]);
        assert(path[i] == full[k + 1]);
        if k > 0 {
            assert(full[k] == anc[k - 1]);
            assert(full[k + 1] == anc[k]);
        }
    }
    assert forall|i: int, j: int| 0 <= i < j < path.len() implies (#[trigger] path[i]).serial != (#[trigger] path[j]).serial by {
        let a = n - 1 - j;
        let b = n - 1 - i;
        assert(path[j] == full[a]);
        assert(path[i] == full[b]);
        assert(full[b] == anc[b - 1]);
        if a > 0 {
            assert(full[a] == anc[a - 1]);
        }
    }
}

} // verus!

verus! {

// ---------------------------------------------------------------------------
// Looking up several elements
// ---------------------------------------------------------------------------

/// The elements of `all` by serial; where serials repeat, the last one.
pub open spec fn serial_map(all: Seq<Element>) -> Map<i64, Element>
    decreases all.len(),
{
    if all.len() == 0 {
        Map::empty()
    } else {
        serial_map(all.drop_last()).insert(all.last().serial, all.last())
    }
}

/// `v` is the lookup view of `e` among the elements `m`.
pub open spec fn looked_up(v: crate::models::ElementLookupView, m: Map<i64, Element>, e: Element) -> bool {
    match climb(m, e.parent_serial, set![e.serial]) {
        Ok(ancestors) => v.element.shows(e) && shows_all(v.path@, (seq![e] + ancestors).reverse()),
        Err(_) => false,
    }
}

/// The elements by serial hold the serial they are found under.
pub proof fn lemma_serial_map_keyed(all: Seq<Element>)
    ensures
        keyed_by_serial(serial_map(all)),
        serial_map(all).dom().finite(),
    decreases all.len(),
{
    if all.len() > 0 {
        lemma_serial_map_keyed(all.drop_last());
    }
}

/// The lookup views of the elements `matches` among the elements `all`, in
/// order; the first element whose containers cannot be followed (a cycle, or
/// a parent missing from `all`) gives the internal error.
pub fn lookup_all(matches: &Vec<Element>, all: Vec<Element>) -> (r: Result<Vec<crate::models::ElementLookupView>, AppError>)
    ensures
        r matches Ok(v) ==> v@.len() == matches@.len() && forall|i: int|
            0 <= i < matches@.len() ==> looked_up(#[trigger] v@[i], serial_map(all@), matches@[i]),
        r matches Err(e) ==> exists|i: int|
            #![trigger matches@[i]]
            0 <= i < matches@.len() && (forall|j: int| 0 <= j < i ==> climb(
                serial_map(all@),
                (#[trigger] matches@[j]).parent_serial,
                set![matches@[j].serial],
            ) is Ok) && (climb(serial_map(all@), matches@[i].parent_serial, set![matches@[i].serial])
                matches Err(msg) && e.is(ErrorKind::Internal, msg)),
        (forall|i: int| 0 <= i < matches@.len() ==> climb(
            serial_map(all@),
            (#[trigger] matches@[i]).parent_serial,
            set![matches@[i].serial],
        ) is Ok) ==> r is Ok,
{
    broadcast use vstd::std_specs::hash::group_hash_axioms;
    let ghost elements = all@;
    let mut by_serial: std::collections::HashMap<i64, Element> = std::collections::HashMap::new();
    let mut k: usize = 0;
    assert(elements.take(0) =~= Seq::<Element>::empty());
    assert(by_serial@ =~= serial_map(elements.take(0)));
    while k < all.len()
        invariant
            k <= all.len(),
            all@ == elements,
            by_serial@ == serial_map(elements.take(k as int)),
        decreases all.len() - k,
    {
        let e = all[k].clone();
        assert(elements.take(k + 1).drop_last() =~= elements.take(k as int));
        by_serial.insert(e.serial, e);
        k = k + 1;
    }
    assert(elements.take(all.len() as int) =~= elements);
    let ghost m = serial_map(elements);
    let mut views: Vec<crate::models::ElementLookupView> = Vec::new();
    let mut i: usize = 0;
    while i < matches.len()
        invariant
            i <= matches.len(),
            by_serial@ == m,
            m == serial_map(all@),
            views@.len() == i,
            forall|j: int| 0 <= j < i ==> looked_up(#[trigger] views@[j], m, matches@[j]),
            forall|j: int| 0 <= j < i ==> climb(m, (#[trigger] matches@[j]).parent_serial, set![matches@[j].serial]) is Ok,
        decreases matches.len() - i,
    {
        match build_element_lookup(matches[i].clone(), &by_serial) {
            Ok(v) => {
                views.push(v);
            },
            Err(e) => {
                return Err(e);
            },
        }
        i = i + 1;
    }
    Ok(views)
}

} // verus!

verus! {

// ---------------------------------------------------------------------------
// The storage tree
// ---------------------------------------------------------------------------

/// The serials of `els`.
pub open spec fn serials(els: Seq<Element>) -> Set<i64> {
    Set::new(|s: i64| exists|i: int| 0 <= i < els.len() && (#[trigger] els[i]).serial == s)
}

/// The parent under which `e` appears in the tree of `els`: its parent when
/// that is one of `els`, and the top level otherwise.
pub open spec fn tree_parent(els: Seq<Element>, e: Element) -> Option<i64> {
    match e.parent_serial {
        Some(p) => if serials(els).contains(p) {
            Some(p)
        } else {
            None
        },
        None => None,
    }
}

/// The elements of `els` that appear directly under `p`, in their order in
/// `els`.
pub open spec fn kids(els: Seq<Element>, all: Seq<Element>, p: Option<i64>) -> Seq<Element>
    decreases els.len(),
{
    if els.len() == 0 {
        Seq::empty()
    } else if tree_parent(all, els.last()) == p {
        kids(els.drop_last(), all, p).push(els.last())
    } else {
        kids(els.drop_last(), all, p)
    }
}

/// Whether `nodes` are the tree of `els` laid out for the elements `ks`, in
/// order and depth first, when the children of the serials in `done` have
/// already been laid out. Under an element come the elements whose parent it
/// is, unless the children of its serial were laid out before; then it has
/// none. The result is the serials whose children have been laid out after
/// `nodes`, and none when `nodes` is not that layout.
pub open spec fn laid_out(
    nodes: Seq<crate::models::TreeNode>,
    els: Seq<Element>,
    ks: Seq<Element>,
    done: Set<i64>,
) -> Option<Set<i64>>
    decreases nodes,
{
    if nodes.len() == 0 || ks.len() == 0 {
        if nodes.len() == 0 && ks.len() == 0 {
            Some(done)
        } else {
            None
        }
    } else {
        let e = ks[0];
        if !nodes[0].element.shows(e) {
            None
        } else if done.contains(e.serial) {
            if nodes[0].children@.len() == 0 {
                laid_out(nodes.drop_first(), els, ks.drop_first(), done)
            } else {
                None
            }
        } else {
            match laid_out(
                nodes[0].children@,
                els,
                kids(els, els, Some(e.serial)),
                done.insert(e.serial),
            ) {
                Some(d) => laid_out(nodes.drop_first(), els, ks.drop_first(), d),
                None => None,
            }
        }
    }
}

} // verus!

verus! {

proof fn lemma_kids_members(els: Seq<Element>, all: Seq<Element>, p: Option<i64>)
    ensures
        forall|i: int| 0 <= i < kids(els, all, p).len() ==> els.contains(#[trigger] kids(els, all, p)[i])
            && tree_parent(all, kids(els, all, p)[i]) == p,
    decreases els.len(),
{
    if els.len() > 0 {
        lemma_kids_members(els.drop_last(), all, p);
        let k = kids(els, all, p);
        assert forall|i: int| 0 <= i < k.len() implies els.contains(#[trigger] k[i]) && tree_parent(all, k[i]) == p by {
            if i < kids(els.drop_last(), all, p).len() {
                let x = kids(els.drop_last(), all, p)[i];
                assert(k[i] == x);
                let a = choose|a: int| 0 <= a < els.drop_last().len() && els.drop_last()[a] == x;
                assert(els[a] == x);
            } else {
                assert(k[i] == els.last());
                assert(els[els.len() - 1] == els.last());
            }
        }
    }
}

/// Laying out one more node after `nodes` continues from where `nodes` left
/// off.
proof fn lemma_laid_out_push(
    nodes: Seq<crate::models::TreeNode>,
    els: Seq<Element>,
    ks: Seq<Element>,
    done: Set<i64>,
    n: crate::models::TreeNode,
    e: Element,
)
    requires
        laid_out(nodes, els, ks, done) is Some,
    ensures
        laid_out(nodes.push(n), els, ks.push(e), done) == laid_out(
            seq![n],
            els,
            seq![e],
            laid_out(nodes, els, ks, done)->0,
        ),
    decreases nodes.len(),
{
    if nodes.len() == 0 {
        assert(nodes.push(n) =~= seq![n]);
        assert(ks.push(e) =~= seq![e]);
    } else {
        assert(nodes.push(n).drop_first() =~= nodes.drop_first().push(n));
        assert(ks.push(e).drop_first() =~= ks.drop_first().push(e));
        assert(nodes.push(n)[0] == nodes[0]);
        assert(ks.push(e)[0] == ks[0]);
        let e0 = ks[0];
        if done.contains(e0.serial) {
            lemma_laid_out_push(nodes.drop_first(), els, ks.drop_first(), done, n, e);
        } else {
            let d = laid_out(nodes[0].children@, els, kids(els, els, Some(e0.serial)), done.insert(e0.serial))->0;
            lemma_laid_out_push(nodes.drop_first(), els, ks.drop_first(), d, n, e);
        }
    }
}

/// The serials of `els` form a finite set.
proof fn lemma_serials_finite(els: Seq<Element>)
    ensures
        serials(els).finite(),
{
    let ss = els.map_values(|e: Element| e.serial);
    assert(serials(els) =~= ss.to_set()) by {
        assert forall|s: i64| serials(els).contains(s) implies ss.to_set().contains(s) by {
            let i = choose|i: int| 0 <= i < els.len() && (#[trigger] els[i]).serial == s;
            assert(ss[i] == s);
        }
        assert forall|s: i64| ss.to_set().contains(s) implies serials(els).contains(s) by {
            let i = choose|i: int| 0 <= i < ss.len() && ss[i] == s;
            assert(els[i].serial == s);
        }
    }
    vstd::seq_lib::seq_to_set_is_finite(ss);
}

/// Laying out the children of one more serial leaves fewer serials to lay
/// out.
proof fn lemma_fewer_left(all: Set<i64>, start: Set<i64>, done: Set<i64>, s: i64)
    requires
        all.finite(),
        start.subset_of(done),
        all.contains(s),
        !done.contains(s),
    ensures
        all.difference(done.insert(s)).len() < all.difference(start).len(),
{
    vstd::set_lib::lemma_set_subset_finite(all, all.difference(start));
    assert(all.difference(done.insert(s)).subset_of(all.difference(start).remove(s)));
    vstd::set_lib::lemma_len_subset(all.difference(done.insert(s)), all.difference(start).remove(s));
}

fn effective_parent(e: &Element, active: &std::collections::HashSet<i64>) -> (r: Option<i64>)
    ensures
        r == match e.parent_serial {
            Some(p) => if active@.contains(p) {
                Some(p)
            } else {
                None
            },
            None => None,
        },
{
    broadcast use vstd::std_specs::hash::group_hash_axioms;
    match e.parent_serial {
        Some(p) => if active.contains(&p) {
            Some(p)
        } else {
            None
        },
        None => None,
    }
}

fn same_parent(a: Option<i64>, b: Option<i64>) -> (r: bool)
    ensures
        r == (a == b),
{
    match (a, b) {
        (Some(x), Some(y)) => x == y,
        (None, None) => true,
        _ => false,
    }
}

/// The nodes of the elements directly under `p`, each with the nodes under
/// it; `done` holds the serials whose children have been laid out.
fn lay_out(
    els: &Vec<Element>,
    active: &std::collections::HashSet<i64>,
    p: Option<i64>,
    done: &mut std::collections::HashSet<i64>,
) -> (nodes: Vec<crate::models::TreeNode>)
    requires
        active@ == serials(els@),
        old(done)@.subset_of(serials(els@)),
    ensures
        final(done)@.subset_of(serials(els@)),
        old(done)@.subset_of(final(done)@),
        laid_out(nodes@, els@, kids(els@, els@, p), old(done)@) == Some(final(done)@),
    decreases serials(els@).difference(old(done)@).len(),
{
    broadcast use vstd::std_specs::hash::group_hash_axioms;
    proof {
        lemma_serials_finite(els@);
    }
    let ghost start = done@;
    let mut nodes: Vec<crate::models::TreeNode> = Vec::new();
    let mut i: usize = 0;
    assert(els@.take(0) =~= Seq::<Element>::empty());
    while i < els.len()
        invariant
            i <= els.len(),
            active@ == serials(els@),
            serials(els@).finite(),
            start == old(done)@,
            start.subset_of(done@),
            done@.subset_of(serials(els@)),
            laid_out(nodes@, els@, kids(els@.take(i as int), els@, p), start) == Some(done@),
        decreases els.len() - i,
    {
        let e = &els[i];
        let ghost prefix = els@.take(i as int);
        let ghost before = done@;
        assert(els@.take(i + 1).drop_last() =~= prefix);
        assert(els@.take(i + 1).last() == els@[i as int]);
        let q = effective_parent(e, active);
        if same_parent(q, p) {
            let s = e.serial;
            assert(serials(els@).contains(s)) by {
                assert(els@[i as int].serial == s);
            }
            let children = if done.contains(&s) {
                Vec::new()
            } else {
                done.insert(s);
                proof {
                    lemma_fewer_left(serials(els@), start, before, s);
                }
                lay_out(els, active, Some(s), done)
            };
            let node = crate::models::TreeNode {
                element: crate::models::ElementView::from_element(e.clone()),
                children,
            };
            proof {
                let ek = els@[i as int];
                lemma_laid_out_push(nodes@, els@, kids(prefix, els@, p), start, node, ek);
                assert(kids(els@.take(i + 1), els@, p) == kids(prefix, els@, p).push(ek));
                assert(seq![node].drop_first() =~= Seq::<crate::models::TreeNode>::empty());
                assert(seq![ek].drop_first() =~= Seq::<Element>::empty());
                assert(laid_out(Seq::empty(), els@, Seq::empty(), done@) == Some(done@));
                assert(laid_out(seq![node], els@, seq![ek], before) == Some(done@));
            }
            nodes.push(node);
        }
        i = i + 1;
    }
    assert(els@.take(els.len() as int) =~= els@);
    nodes
}

/// The storage tree of the live `elements`: at the top level the elements
/// whose parent is not among them, and under each element the elements whose
/// parent it is, all in the order of `elements`. Should several elements
/// share a serial, only the first of them laid out gets the children of that
/// serial; when none do, every element gets all of its children.
pub fn build_tree(elements: &Vec<Element>) -> (nodes: Vec<crate::models::TreeNode>)
    ensures
        laid_out(nodes@, elements@, kids(elements@, elements@, None), Set::empty()) is Some,
        distinct_serials(elements@) ==> full_layout(nodes@, elements@, kids(elements@, elements@, None)),
{
    broadcast use vstd::std_specs::hash::group_hash_axioms;
    let mut active: std::collections::HashSet<i64> = std::collections::HashSet::new();
    let mut i: usize = 0;
    while i < elements.len()
        invariant
            i <= elements.len(),
            active@ == serials(elements@.take(i as int)),
        decreases elements.len() - i,
    {
        active.insert(elements[i].serial);
        proof {
            let pre = elements@.take(i as int);
            let post = elements@.take(i + 1);
            assert forall|s: i64| serials(post).contains(s) == serials(pre).insert(elements@[i as int].serial).contains(s) by {
                if serials(post).contains(s) {
                    let k = choose|k: int| 0 <= k < post.len() && post[k].serial == s;
                    if k < i {
                        assert(pre[k] == post[k]);
                    }
                }
                if serials(pre).contains(s) {
                    let k = choose|k: int| 0 <= k < pre.len() && pre[k].serial == s;
                    assert(post[k] == pre[k]);
                }
                if s == elements@[i as int].serial {
                    assert(post[i as int] == elements@[i as int]);
                }
            }
            assert(active@ =~= serials(post));
        }
        i = i + 1;
    }
    assert(elements@.take(elements.len() as int) =~= elements@);
    let mut done: std::collections::HashSet<i64> = std::collections::HashSet::new();
    assert(done@.subset_of(serials(elements@)));
    let nodes = lay_out(elements, &active, None, &mut done);
    proof {
        if distinct_serials(elements@) {
            law_tree_is_complete(nodes@, elements@);
        }
    }
    nodes
}

} // verus!

verus! {

/// The nodes laid out for `ks` show the elements of `ks`, one for one and in
/// order.
proof fn lemma_laid_out_shows(
    nodes: Seq<crate::models::TreeNode>,
    els: Seq<Element>,
    ks: Seq<Element>,
    done: Set<i64>,
)
    requires
        laid_out(nodes, els, ks, done) is Some,
    ensures
        nodes.len() == ks.len(),
        forall|i: int| 0 <= i < nodes.len() ==> (#[trigger] nodes[i]).element.shows(ks[i]),
    decreases nodes.len(),
{
    if nodes.len() > 0 {
        let e = ks[0];
        if done.contains(e.serial) {
            lemma_laid_out_shows(nodes.drop_first(), els, ks.drop_first(), done);
        } else {
            let d = laid_out(nodes[0].children@, els, kids(els, els, Some(e.serial)), done.insert(e.serial))->0;
            lemma_laid_out_shows(nodes.drop_first(), els, ks.drop_first(), d);
        }
        assert forall|i: int| 0 <= i < nodes.len() implies (#[trigger] nodes[i]).element.shows(ks[i]) by {
            if i > 0 {
                assert(nodes[i] == nodes.drop_first()[i - 1]);
                assert(ks[i] == ks.drop_first()[i - 1]);
            }
        }
    }
}

/// Every node laid out under `p` is an element of `els` that sits directly
/// under `p`: its parent is `p`, or it is at the top level because its parent
/// is not among `els`; and they come in the order of `els`.
pub proof fn law_tree_nodes_sit_under_their_parent(
    nodes: Seq<crate::models::TreeNode>,
    els: Seq<Element>,
    p: Option<i64>,
    done: Set<i64>,
)
    requires
        laid_out(nodes, els, kids(els, els, p), done) is Some,
    ensures
        nodes.len() == kids(els, els, p).len(),
        forall|i: int|
            0 <= i < nodes.len() ==> els.contains((#[trigger] nodes[i]).element.element) && tree_parent(
                els,
                nodes[i].element.element,
            ) == p,
{
    lemma_kids_members(els, els, p);
    lemma_laid_out_shows(nodes, els, kids(els, els, p), done);
    assert forall|i: int| 0 <= i < nodes.len() implies els.contains((#[trigger] nodes[i]).element.element)
        && tree_parent(els, nodes[i].element.element) == p by {
        assert(nodes[i].element.shows(kids(els, els, p)[i]));
    }
}

} // verus!

verus! {

// ---------------------------------------------------------------------------
// The tree when serials are keys
// ---------------------------------------------------------------------------

/// No two elements of `els` share a serial.
pub open spec fn distinct_serials(els: Seq<Element>) -> bool {
    forall|i: int, j: int| 0 <= i < j < els.len() ==> (#[trigger] els[i]).serial != (#[trigger] els[j]).serial
}

/// `nodes` show the elements of `ks` in order, each with the nodes of all the
/// elements directly under it.
pub open spec fn full_layout(nodes: Seq<crate::models::TreeNode>, els: Seq<Element>, ks: Seq<Element>) -> bool
    decreases nodes,
{
    &&& nodes.len() == ks.len()
    &&& forall|i: int|
        0 <= i < nodes.len() ==> {
            &&& (#[trigger] nodes[i]).element.shows(ks[i])
            &&& full_layout(nodes[i].children@, els, kids(els, els, Some(ks[i].serial)))
        }
}

/// Every element of `els` whose serial is in `done` sits at the top level or
/// under a serial in `done`.
pub open spec fn closed_upward(els: Seq<Element>, done: Set<i64>) -> bool {
    forall|y: Element|
        #![trigger els.contains(y), done.contains(y.serial)]
        els.contains(y) && done.contains(y.serial) ==> match tree_parent(els, y) {
            None => true,
            Some(t) => done.contains(t),
        }
}

proof fn lemma_same_serial_same_element(els: Seq<Element>, x: Element, y: Element)
    requires
        distinct_serials(els),
        els.contains(x),
        els.contains(y),
        x.serial == y.serial,
    ensures
        x == y,
{
    let a = choose|a: int| 0 <= a < els.len() && els[a] == x;
    let b = choose|b: int| 0 <= b < els.len() && els[b] == y;
    if a < b {
        assert(els[a].serial != els[b].serial);
    } else if b < a {
        assert(els[b].serial != els[a].serial);
    }
}

/// The elements under one parent have distinct serials when `els` has.
proof fn lemma_kids_distinct(els: Seq<Element>, all: Seq<Element>, p: Option<i64>)
    requires
        distinct_serials(els),
    ensures
        distinct_serials(kids(els, all, p)),
    decreases els.len(),
{
    if els.len() > 0 {
        let rest = els.drop_last();
        assert(distinct_serials(rest)) by {
            assert forall|i: int, j: int| 0 <= i < j < rest.len() implies (#[trigger] rest[i]).serial
                != (#[trigger] rest[j]).serial by {
                assert(rest[i] == els[i] && rest[j] == els[j]);
            }
        }
        lemma_kids_distinct(rest, all, p);
        lemma_kids_members(rest, all, p);
        let k = kids(els, all, p);
        let kr = kids(rest, all, p);
        if tree_parent(all, els.last()) == p {
            assert forall|i: int, j: int| 0 <= i < j < k.len() implies (#[trigger] k[i]).serial
                != (#[trigger] k[j]).serial by {
                if j == k.len() - 1 {
                    assert(k[j] == els.last());
                    assert(k[i] == kr[i]);
                    assert(rest.contains(kr[i]));
                    let a = choose|a: int| 0 <= a < rest.len() && rest[a] == kr[i];
                    assert(els[a] == kr[i]);
                    assert(els[a].serial != els[els.len() - 1].serial);
                } else {
                    assert(k[i] == kr[i] && k[j] == kr[j]);
                }
            }
        }
    }
}

/// Laying out elements that sit under `p`, none of them laid out before,
/// when `p` has been laid out and every laid-out serial hangs from the top
/// through laid-out serials: no element meets its serial again, so each gets
/// all the elements under it. Every serial the layout adds belongs to one of
/// `ks` or hangs under a serial it adds.
proof fn lemma_laid_out_full(
    nodes: Seq<crate::models::TreeNode>,
    els: Seq<Element>,
    ks: Seq<Element>,
    p: Option<i64>,
    done: Set<i64>,
)
    requires
        distinct_serials(els),
        distinct_serials(ks),
        forall|i: int| 0 <= i < ks.len() ==> els.contains(#[trigger] ks[i]) && tree_parent(els, ks[i]) == p
            && !done.contains(ks[i].serial),
        p is None || done.contains(p->0),
        closed_upward(els, done),
        laid_out(nodes, els, ks, done) is Some,
    ensures
        full_layout(nodes, els, ks),
        done.subset_of(laid_out(nodes, els, ks, done)->0),
        closed_upward(els, laid_out(nodes, els, ks, done)->0),
        forall|y: Element|
            #![trigger els.contains(y), laid_out(nodes, els, ks, done)->0.contains(y.serial)]
            els.contains(y) && laid_out(nodes, els, ks, done)->0.contains(y.serial) && !done.contains(y.serial)
                ==> ks.contains(y) || (tree_parent(els, y) matches Some(t) && laid_out(
                nodes,
                els,
                ks,
                done,
            )->0.contains(t) && !done.contains(t)),
    decreases nodes,
{
    if nodes.len() == 0 {
        return;
    }
    let e = ks[0];
    let d = laid_out(nodes, els, ks, done)->0;
    let done1 = done.insert(e.serial);
    let inner = kids(els, els, Some(e.serial));
    let d0 = laid_out(nodes[0].children@, els, inner, done1)->0;
    let rest_nodes = nodes.drop_first();
    let rest = ks.drop_first();
    // the first element, then its children
    assert(closed_upward(els, done1)) by {
        assert forall|y: Element| els.contains(y) && done1.contains(y.serial) implies match tree_parent(els, y) {
            None => true,
            Some(t) => done1.contains(t),
        } by {
            if y.serial == e.serial {
                lemma_same_serial_same_element(els, y, e);
            }
        }
    }
    lemma_kids_members(els, els, Some(e.serial));
    lemma_kids_distinct(els, els, Some(e.serial));
    assert forall|i: int| 0 <= i < inner.len() implies els.contains(#[trigger] inner[i]) && tree_parent(
        els,
        inner[i],
    ) == Some(e.serial) && !done1.contains(inner[i].serial) by {
        let k = inner[i];
        if k.serial == e.serial {
            lemma_same_serial_same_element(els, k, e);
        }
        if done.contains(k.serial) {
            assert(els.contains(k) && done.contains(k.serial));
        }
    }
    lemma_laid_out_full(nodes[0].children@, els, inner, Some(e.serial), done1);
    // the rest of the elements
    assert(distinct_serials(rest)) by {
        assert forall|i: int, j: int| 0 <= i < j < rest.len() implies (#[trigger] rest[i]).serial
            != (#[trigger] rest[j]).serial by {
            assert(rest[i] == ks[i + 1] && rest[j] == ks[j + 1]);
        }
    }
    assert forall|i: int| 0 <= i < rest.len() implies els.contains(#[trigger] rest[i]) && tree_parent(
        els,
        rest[i],
    ) == p && !d0.contains(rest[i].serial) by {
        let x = rest[i];
        assert(x == ks[i + 1]);
        assert(ks[0].serial != ks[i + 1].serial);
        if d0.contains(x.serial) {
            assert(els.contains(x) && d0.contains(x.serial));
            if inner.contains(x) {
                let j = choose|j: int| 0 <= j < inner.len() && inner[j] == x;
                assert(tree_parent(els, inner[j]) == Some(e.serial));
            }
        }
    }
    assert(laid_out(rest_nodes, els, rest, d0) == Some(d));
    lemma_laid_out_full(rest_nodes, els, rest, p, d0);
    // the whole layout
    assert forall|i: int| 0 <= i < nodes.len() implies {
        &&& (#[trigger] nodes[i]).element.shows(ks[i])
        &&& full_layout(nodes[i].children@, els, kids(els, els, Some(ks[i].serial)))
    } by {
        if i > 0 {
            assert(nodes[i] == rest_nodes[i - 1]);
            assert(ks[i] == rest[i - 1]);
        }
    }
    assert forall|y: Element|
        #![trigger els.contains(y), d.contains(y.serial)]
        els.contains(y) && d.contains(y.serial) && !done.contains(y.serial) implies ks.contains(y) || (tree_parent(
            els,
            y,
        ) matches Some(t) && d.contains(t) && !done.contains(t)) by {
        if y.serial == e.serial {
            lemma_same_serial_same_element(els, y, e);
            assert(ks[0] == y);
        } else if d0.contains(y.serial) {
            assert(els.contains(y) && d0.contains(y.serial));
            if inner.contains(y) {
                let j = choose|j: int| 0 <= j < inner.len() && inner[j] == y;
                assert(tree_parent(els, inner[j]) == Some(e.serial));
            }
        } else {
            assert(els.contains(y) && d.contains(y.serial));
            if rest.contains(y) {
                let j = choose|j: int| 0 <= j < rest.len() && rest[j] == y;
                assert(ks[j + 1] == y);
            }
        }
    }
}

/// When no two elements share a serial (the serial is the key of the
/// store), the storage tree shows every element at the top level with all
/// the elements under it, and under each of those all the elements under it
/// in turn.
pub proof fn law_tree_is_complete(nodes: Seq<crate::models::TreeNode>, els: Seq<Element>)
    requires
        distinct_serials(els),
        laid_out(nodes, els, kids(els, els, None), Set::empty()) is Some,
    ensures
        full_layout(nodes, els, kids(els, els, None)),
{
    lemma_kids_members(els, els, None);
    lemma_kids_distinct(els, els, None);
    lemma_laid_out_full(nodes, els, kids(els, els, None), None, Set::empty());
}

} // verus!
