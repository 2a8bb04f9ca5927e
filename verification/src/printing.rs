//! Label printing: the label styles, the request handed to the label
//! program and the arguments it is started with, and the order of a
//! container's children on its label.
use vstd::prelude::*;
use crate::models::Element;
use crate::text::{chars_of, concat2, decimal, decimal_string, owned, trim, trimmed};

verus! {

// ---------------------------------------------------------------------------
// Modes and styles
// ---------------------------------------------------------------------------

/// Whether labels are rendered to a preview image or sent to the printer.
#[derive(PartialEq, Eq, Structural, Clone, Copy, Debug)]
pub enum PrintMode {
    Preview,
    Printer,
}

pub open spec fn mode_arg(mode: PrintMode) -> Seq<char> {
    match mode {
        PrintMode::Preview => "preview"@,
        PrintMode::Printer => "printer"@,
    }
}

/// What the `{:?}` formatting of a string slice gives for `s` (the text in
/// double quotes, with escapes).
pub uninterp spec fn debug_text(s: Seq<char>) -> Seq<char>;

/// `format!("{value:?}")`: the debug form of a string slice.
#[verifier::external_body]
fn debug_string(value: &str) -> (s: String)
    ensures
        s@ == debug_text(value@),
{
    format!("{value:?}")
}

impl PrintMode {
    /// The name of the mode on the label program's command line.
    pub fn as_arg(self) -> (s: &'static str)
        ensures
            s@ == mode_arg(self),
    {
        proof {
            reveal_strlit("preview");
            reveal_strlit("printer");
        }
        match self {
            PrintMode::Preview => "preview",
            PrintMode::Printer => "printer",
        }
    }

    /// The mode named `value`; any other text is refused with a message that
    /// quotes it.
    pub fn from_text(value: &str) -> (r: Result<PrintMode, String>)
        ensures
            r matches Ok(m) ==> mode_arg(m) == value@,
            r is Err <==> value@ != "preview"@ && value@ != "printer"@,
            r matches Err(m) ==> m@ == "未知打印模式 "@ + debug_text(value@)
                + "，可选值为 preview、printer"@,
    {
        proof {
            reveal_strlit("preview");
            reveal_strlit("printer");
        }
        if crate::validation::same_text(value, "preview") {
            Ok(PrintMode::Preview)
        } else if crate::validation::same_text(value, "printer") {
            Ok(PrintMode::Printer)
        } else {
            let quoted = debug_string(value);
            let mut message = concat2("未知打印模式 ", quoted.as_str());
            crate::text::push_str(&mut message, "，可选值为 preview、printer");
            Err(message)
        }
    }
}

impl std::str::FromStr for PrintMode {
    type Err = String;

    fn from_str(value: &str) -> (r: Result<PrintMode, String>)
        ensures
            r matches Ok(m) ==> mode_arg(m) == value@,
            r is Err <==> value@ != "preview"@ && value@ != "printer"@,
            r matches Err(m) ==> m@ == "未知打印模式 "@ + debug_text(value@)
                + "，可选值为 preview、printer"@,
    {
        PrintMode::from_text(value)
    }
}

/// The four label layouts; B1 and B2 list the container's children.
#[derive(PartialEq, Eq, Structural, Clone, Copy, Debug)]
pub enum LabelStyle {
    A1,
    A2,
    B1,
    B2,
}

pub open spec fn style_name(style: LabelStyle) -> Seq<char> {
    match style {
        LabelStyle::A1 => "A1"@,
        LabelStyle::A2 => "A2"@,
        LabelStyle::B1 => "B1"@,
        LabelStyle::B2 => "B2"@,
    }
}

pub open spec fn lists_children(style: LabelStyle) -> bool {
    style == LabelStyle::B1 || style == LabelStyle::B2
}

impl LabelStyle {
    pub fn as_str(self) -> (s: &'static str)
        ensures
            s@ == style_name(self),
    {
        match self {
            LabelStyle::A1 => "A1",
            LabelStyle::A2 => "A2",
            LabelStyle::B1 => "B1",
            LabelStyle::B2 => "B2",
        }
    }

    /// Whether the label lists the container's children (B1 and B2).
    pub fn includes_children(self) -> (r: bool)
        ensures
            r == lists_children(self),
    {
        match self {
            LabelStyle::B1 | LabelStyle::B2 => true,
            _ => false,
        }
    }
}

// ---------------------------------------------------------------------------
// The request to the label program
// ---------------------------------------------------------------------------

/// How the label program is started. Paths are kept as text; `timeout_text` is
/// the decimal text of the connection timeout in seconds.
#[derive(Debug)]
pub struct PrintConfig {
    pub mode: PrintMode,
    pub python: String,
    pub script: String,
    pub output_dir: String,
    pub host: String,
    pub port: u16,
    pub timeout_text: String,
    pub open_preview: bool,
    pub cut: bool,
}

/// The arguments the interpreter is started with: the script, the mode, and
/// then the preview options or the printer options.
pub open spec fn command_args_of(config: PrintConfig) -> Seq<Seq<char>> {
    let common = seq![config.script@, "--mode"@, mode_arg(config.mode)];
    match config.mode {
        PrintMode::Preview => common + seq!["--output-dir"@, config.output_dir@] + if config.open_preview {
            Seq::<Seq<char>>::empty()
        } else {
            seq!["--no-open"@]
        },
        PrintMode::Printer => common + seq![
            "--host"@,
            config.host@,
            "--port"@,
            decimal(config.port as nat),
            "--timeout"@,
            config.timeout_text@,
        ] + if config.cut {
            Seq::<Seq<char>>::empty()
        } else {
            seq!["--no-cut"@]
        },
    }
}

pub open spec fn texts(v: Seq<String>) -> Seq<Seq<char>> {
    v.map_values(|s: String| s@)
}

fn push_text(args: &mut Vec<String>, s: &str)
    ensures
        texts(final(args)@) == texts(old(args)@).push(s@),
{
    let t = owned(s);
    args.push(t);
    assert(texts(args@) =~= texts(old(args)@).push(s@));
}

impl PrintConfig {
    /// The arguments to start the interpreter with.
    pub fn command_args(&self) -> (args: Vec<String>)
        ensures
            texts(args@) == command_args_of(*self),
    {
        proof {
            reveal_strlit("--mode");
            reveal_strlit("--output-dir");
            reveal_strlit("--no-open");
            reveal_strlit("--host");
            reveal_strlit("--port");
            reveal_strlit("--timeout");
            reveal_strlit("--no-cut");
        }
        let mut args: Vec<String> = Vec::new();
        push_text(&mut args, self.script.as_str());
        push_text(&mut args, "--mode");
        push_text(&mut args, self.mode.as_arg());
        match self.mode {
            PrintMode::Preview => {
                push_text(&mut args, "--output-dir");
                push_text(&mut args, self.output_dir.as_str());
                if !self.open_preview {
                    push_text(&mut args, "--no-open");
                }
            },
            PrintMode::Printer => {
                push_text(&mut args, "--host");
                push_text(&mut args, self.host.as_str());
                push_text(&mut args, "--port");
                let port = decimal_string(self.port as u64);
                push_text(&mut args, port.as_str());
                push_text(&mut args, "--timeout");
                push_text(&mut args, self.timeout_text.as_str());
                if !self.cut {
                    push_text(&mut args, "--no-cut");
                }
            },
        }
        assert(texts(args@) =~= command_args_of(*self));
        args
    }
}

/// One child listed on a B1 or B2 label.
#[derive(Debug)]
pub struct ChildLabel {
    pub identifier: String,
    pub name: String,
}

/// The request written to the label program.
#[derive(Debug)]
pub struct LabelPayload {
    pub schema_version: u8,
    pub style: String,
    pub kind: String,
    pub identifier: String,
    pub name: String,
    pub children: Vec<ChildLabel>,
}

/// What the label program reports back.
#[derive(Debug)]
pub struct PrintOutput {
    pub schema_version: u8,
    pub mode: String,
    pub style: String,
    pub identifier: String,
    pub output: Option<String>,
}

impl LabelPayload {
    /// This is the request for a label of `style` for `element`, listing
    /// `children` in their order.
    pub open spec fn describes(&self, element: Element, style: LabelStyle, children: Seq<Element>) -> bool {
        &&& self.schema_version == 1
        &&& self.style@ == style_name(style)
        &&& self.kind@ == element.kind@
        &&& self.identifier@ == element.code_spec()
        &&& self.name@ == element.name@
        &&& self.children@.len() == children.len()
        &&& forall|i: int|
            0 <= i < children.len() ==> {
                &&& (#[trigger] self.children@[i]).identifier@ == children[i].code_spec()
                &&& self.children@[i].name@ == children[i].name@
            }
    }
}

/// The request for a label of `style` for `element`, listing `children`.
pub fn payload(element: &Element, style: LabelStyle, children: &Vec<Element>) -> (p: LabelPayload)
    ensures
        p.describes(*element, style, children@),
{
    let mut labels: Vec<ChildLabel> = Vec::new();
    let mut i: usize = 0;
    while i < children.len()
        invariant
            i <= children.len(),
            labels@.len() == i,
            forall|k: int|
                0 <= k < i ==> {
                    &&& (#[trigger] labels@[k]).identifier@ == children@[k].code_spec()
                    &&& labels@[k].name@ == children@[k].name@
                },
        decreases children.len() - i,
    {
        let child = &children[i];
        labels.push(ChildLabel { identifier: child.code(), name: child.name.clone() });
        i = i + 1;
    }
    LabelPayload {
        schema_version: 1,
        style: owned(style.as_str()),
        kind: element.kind.clone(),
        identifier: element.code(),
        name: element.name.clone(),
        children: labels,
    }
}

/// The message for a label program that exited unsuccessfully: what it wrote
/// to its error stream, trimmed, or else its exit status.
pub fn failure_message(stderr_text: &str, status_text: &str) -> (m: String)
    ensures
        trim(stderr_text@).len() > 0 ==> m@ == trim(stderr_text@),
        trim(stderr_text@).len() == 0 ==> m@ == "Python 标签模块退出："@ + status_text@,
{
    let detail = trimmed(stderr_text);
    let n = chars_of(detail.as_str()).len();
    if n == 0 {
        concat2("Python 标签模块退出：", status_text)
    } else {
        detail
    }
}

// ---------------------------------------------------------------------------
// The order of children on a label
// ---------------------------------------------------------------------------

/// Lexicographic order of texts by code point (the order of `str`, whose
/// UTF-8 bytes compare in the same order).
pub open spec fn text_less(a: Seq<char>, b: Seq<char>) -> bool
    decreases a.len(),
{
    if b.len() == 0 {
        false
    } else if a.len() == 0 {
        true
    } else if a[0] != b[0] {
        a[0] < b[0]
    } else {
        text_less(a.drop_first(), b.drop_first())
    }
}

pub proof fn lemma_text_less_irreflexive(a: Seq<char>)
    ensures
        !text_less(a, a),
    decreases a.len(),
{
    if a.len() > 0 {
        lemma_text_less_irreflexive(a.drop_first());
    }
}

pub proof fn lemma_text_less_transitive(a: Seq<char>, b: Seq<char>, c: Seq<char>)
    requires
        text_less(a, b),
        text_less(b, c),
    ensures
        text_less(a, c),
    decreases a.len(),
{
    if a.len() > 0 && b.len() > 0 && c.len() > 0 && a[0] == b[0] && b[0] == c[0] {
        lemma_text_less_transitive(a.drop_first(), b.drop_first(), c.drop_first());
    }
}

pub proof fn lemma_text_less_total(a: Seq<char>, b: Seq<char>)
    ensures
        a == b || text_less(a, b) || text_less(b, a),
    decreases a.len(),
{
    if a.len() > 0 && b.len() > 0 && a[0] == b[0] {
        lemma_text_less_total(a.drop_first(), b.drop_first());
        if a.drop_first() == b.drop_first() {
            assert forall|i: int| 0 <= i < a.len() implies a[i] == b[i] by {
                if i > 0 {
                    assert(a[i] == a.drop_first()[i - 1]);
                    assert(b[i] == b.drop_first()[i - 1]);
                }
            }
            assert(a =~= b);
        }
    } else if a.len() == 0 && b.len() == 0 {
        assert(a =~= b);
    }
}

/// The key children are ordered by: the category letter, the two tags and
/// the serial.
pub open spec fn sort_key(e: Element) -> (Seq<char>, i64, i64, i64) {
    (e.tag_a@, e.tag_b, e.tag_c, e.serial)
}

/// Whether `a` comes strictly before `b` in the order of children.
pub open spec fn key_less(a: Element, b: Element) -> bool {
    ||| text_less(a.tag_a@, b.tag_a@)
    ||| a.tag_a@ == b.tag_a@ && a.tag_b < b.tag_b
    ||| a.tag_a@ == b.tag_a@ && a.tag_b == b.tag_b && a.tag_c < b.tag_c
    ||| a.tag_a@ == b.tag_a@ && a.tag_b == b.tag_b && a.tag_c == b.tag_c && a.serial < b.serial
}

pub open spec fn sorted_by_key(s: Seq<Element>) -> bool {
    forall|i: int, j: int| 0 <= i < j < s.len() ==> !key_less(#[trigger] s[j], #[trigger] s[i])
}

/// The elements of `s` whose key is `k`, in their order in `s`.
pub open spec fn with_key(s: Seq<Element>, k: (Seq<char>, i64, i64, i64)) -> Seq<Element>
    decreases s.len(),
{
    if s.len() == 0 {
        Seq::empty()
    } else if sort_key(s.last()) == k {
        with_key(s.drop_last(), k).push(s.last())
    } else {
        with_key(s.drop_last(), k)
    }
}

proof fn lemma_with_key_add(a: Seq<Element>, b: Seq<Element>, k: (Seq<char>, i64, i64, i64))
    ensures
        with_key(a + b, k) == with_key(a, k) + with_key(b, k),
    decreases b.len(),
{
    if b.len() == 0 {
        assert(a + b =~= a);
        assert(with_key(a, k) + with_key(b, k) =~= with_key(a, k));
    } else {
        assert((a + b).drop_last() =~= a + b.drop_last());
        lemma_with_key_add(a, b.drop_last(), k);
        if sort_key(b.last()) == k {
            assert(with_key(a, k) + with_key(b.drop_last(), k).push(b.last()) =~= (with_key(a, k)
                + with_key(b.drop_last(), k)).push(b.last()));
        }
    }
}

proof fn lemma_with_key_none(s: Seq<Element>, k: (Seq<char>, i64, i64, i64))
    requires
        forall|i: int| 0 <= i < s.len() ==> sort_key(#[trigger] s[i]) != k,
    ensures
        with_key(s, k) == Seq::<Element>::empty(),
    decreases s.len(),
{
    if s.len() > 0 {
        lemma_with_key_none(s.drop_last(), k);
    }
}

proof fn lemma_with_key_single(x: Element, k: (Seq<char>, i64, i64, i64))
    ensures
        with_key(seq![x], k) == (if sort_key(x) == k {
            seq![x]
        } else {
            Seq::<Element>::empty()
        }),
{
    assert(seq![x].drop_last() =~= Seq::<Element>::empty());
    assert(with_key(Seq::<Element>::empty(), k) == Seq::<Element>::empty());
    assert(Seq::<Element>::empty().push(x) =~= seq![x]);
}

/// "Does not come after" is transitive.
proof fn lemma_not_less_chain(p: Element, q: Element, r: Element)
    requires
        !key_less(q, p),
        !key_less(r, q),
    ensures
        !key_less(r, p),
{
    lemma_key_less_facts(r, p, q);
    lemma_key_less_facts(p, q, r);
    lemma_key_less_facts(q, p, r);
}

proof fn lemma_key_less_facts(a: Element, b: Element, c: Element)
    ensures
        !key_less(a, a),
        key_less(a, b) && key_less(b, c) ==> key_less(a, c),
        sort_key(a) != sort_key(b) ==> key_less(a, b) || key_less(b, a),
        key_less(a, b) ==> !key_less(b, a),
{
    lemma_text_less_irreflexive(a.tag_a@);
    lemma_text_less_irreflexive(b.tag_a@);
    if text_less(a.tag_a@, b.tag_a@) && text_less(b.tag_a@, c.tag_a@) {
        lemma_text_less_transitive(a.tag_a@, b.tag_a@, c.tag_a@);
    }
    if text_less(a.tag_a@, b.tag_a@) && text_less(b.tag_a@, a.tag_a@) {
        lemma_text_less_transitive(a.tag_a@, b.tag_a@, a.tag_a@);
    }
    lemma_text_less_total(a.tag_a@, b.tag_a@);
}

fn text_is_less(a: &String, b: &String) -> (r: bool)
    ensures
        r == text_less(a@, b@),
{
    let x = chars_of(a.as_str());
    let y = chars_of(b.as_str());
    let mut i: usize = 0;
    assert(x@.skip(0) =~= x@);
    assert(y@.skip(0) =~= y@);
    while i < x.len() && i < y.len()
        invariant
            i <= x.len(),
            i <= y.len(),
            x@ == a@,
            y@ == b@,
            text_less(a@, b@) == text_less(x@.skip(i as int), y@.skip(i as int)),
        decreases x.len() - i,
    {
        let ghost sx = x@.skip(i as int);
        let ghost sy = y@.skip(i as int);
        assert(sx[0] == x@[i as int]);
        assert(sy[0] == y@[i as int]);
        if x[i] != y[i] {
            return x[i] < y[i];
        }
        assert(sx.drop_first() =~= x@.skip(i as int + 1));
        assert(sy.drop_first() =~= y@.skip(i as int + 1));
        i = i + 1;
    }
    i == x.len() && i < y.len()
}

fn is_key_less(a: &Element, b: &Element) -> (r: bool)
    ensures
        r == key_less(*a, *b),
{
    if text_is_less(&a.tag_a, &b.tag_a) {
        return true;
    }
    if text_is_less(&b.tag_a, &a.tag_a) {
        proof {
            lemma_text_less_irreflexive(a.tag_a@);
        }
        return false;
    }
    proof {
        lemma_text_less_total(a.tag_a@, b.tag_a@);
    }
    if a.tag_b != b.tag_b {
        return a.tag_b < b.tag_b;
    }
    if a.tag_c != b.tag_c {
        return a.tag_c < b.tag_c;
    }
    a.serial < b.serial
}

/// Puts `children` in label order: by category letter, then the two tags,
/// then the serial; children with the same key keep their relative order.
pub fn sort_children(children: &mut Vec<Element>)
    ensures
        sorted_by_key(final(children)@),
        forall|k: (Seq<char>, i64, i64, i64)| #[trigger]
            with_key(final(children)@, k) == with_key(old(children)@, k),
        forall|i: int, j: int|
            0 <= i < j < final(children)@.len() ==> label_order(
                #[trigger] final(children)@[i],
                #[trigger] final(children)@[j],
            ),
{
    let mut input: Vec<Element> = Vec::new();
    std::mem::swap(children, &mut input);
    let ghost orig = input@;
    let mut out: Vec<Element> = Vec::new();
    let mut i: usize = 0;
    while i < input.len()
        invariant
            i <= input.len(),
            input@ == orig,
            sorted_by_key(out@),
            forall|k: (Seq<char>, i64, i64, i64)| #[trigger]
                with_key(out@, k) == with_key(orig.take(i as int), k),
        decreases input.len() - i,
    {
        let x = input[i].clone();
        // the place of x: after every element that does not come after it
        let mut pos: usize = out.len();
        while pos > 0 && is_key_less(&x, &out[pos - 1])
            invariant
                pos <= out.len(),
                forall|j: int| pos <= j < out.len() ==> key_less(x, #[trigger] out@[j]),
            decreases pos,
        {
            pos = pos - 1;
        }
        let ghost before = out@;
        out.insert(pos, x);
        proof {
            let left = before.take(pos as int);
            let right = before.skip(pos as int);
            assert(before =~= left + right);
            assert(out@ =~= left + seq![x] + right);
            assert(forall|j: int| 0 <= j < pos ==> #[trigger] out@[j] == before[j]);
            assert(out@[pos as int] == x);
            assert(forall|j: int| pos < j < out@.len() ==> #[trigger] out@[j] == before[j - 1]);
            assert forall|a: int, b: int| 0 <= a < b < out@.len() implies !key_less(
                #[trigger] out@[b],
                #[trigger] out@[a],
            ) by {
                if b < pos {
                    assert(!key_less(before[b], before[a]));
                } else if b == pos {
                    assert(!key_less(x, before[pos - 1]));
                    if a < pos - 1 {
                        assert(!key_less(before[pos - 1], before[a]));
                        lemma_not_less_chain(before[a], before[pos - 1], x);
                    }
                } else if a == pos {
                    assert(key_less(x, before[b - 1]));
                    lemma_key_less_facts(x, before[b - 1], x);
                } else if a < pos {
                    assert(!key_less(before[b - 1], before[a]));
                } else {
                    assert(!key_less(before[b - 1], before[a - 1]));
                }
            }
            assert(orig.take(i as int + 1) =~= orig.take(i as int).push(x));
            assert forall|k: (Seq<char>, i64, i64, i64)| #[trigger]
                with_key(out@, k) == with_key(orig.take(i as int + 1), k) by {
                lemma_with_key_add(left + seq![x], right, k);
                lemma_with_key_add(left, seq![x], k);
                lemma_with_key_add(left, right, k);
                lemma_with_key_single(x, k);
                let t = orig.take(i as int);
                assert(orig.take(i as int + 1).drop_last() =~= t);
                assert(orig.take(i as int + 1).last() == x);
                assert(with_key(before, k) == with_key(t, k));
                if sort_key(x) == k {
                    assert forall|j: int| 0 <= j < right.len() implies sort_key(
                        #[trigger] right[j],
                    ) != k by {
                        assert(key_less(x, before[pos + j]));
                        lemma_key_less_facts(x, x, x);
                    }
                    lemma_with_key_none(right, k);
                    assert(with_key(right, k) + Seq::<Element>::empty() =~= with_key(right, k));
                    assert(with_key(left, k) + with_key(seq![x], k) + with_key(right, k)
                        =~= with_key(left, k).push(x));
                } else {
                    assert(with_key(left, k) + with_key(seq![x], k) =~= with_key(left, k));
                }
            }
        }
        i = i + 1;
    }
    assert(orig.take(input.len() as int) =~= orig);
    proof {
        law_label_order_is_lexicographic(out@);
    }
    *children = out;
}

} // verus!

verus! {

/// `a` may come before `b` on a label: a smaller category letter (the
/// letters compared character by character by code point, a shorter prefix
/// first), or the same letter and a smaller tag BB, or the same letter and
/// BB and a smaller tag CC, or all three the same and a serial no greater.
pub open spec fn label_order(a: Element, b: Element) -> bool {
    let (x, y) = (a.tag_a@, b.tag_a@);
    let shared = if x.len() < y.len() { x.len() } else { y.len() };
    let letter_first = (exists|k: int|
        0 <= k < shared && x[k] < y[k] && forall|m: int| 0 <= m < k ==> x[m] == y[m])
        || (x.len() < y.len() && forall|m: int| 0 <= m < x.len() ==> x[m] == y[m]);
    ||| letter_first
    ||| x == y && a.tag_b < b.tag_b
    ||| x == y && a.tag_b == b.tag_b && a.tag_c < b.tag_c
    ||| x == y && a.tag_b == b.tag_b && a.tag_c == b.tag_c && a.serial <= b.serial
}

proof fn lemma_text_less_first_difference(x: Seq<char>, y: Seq<char>)
    requires
        text_less(x, y),
    ensures
        (exists|k: int|
            0 <= k < x.len() && k < y.len() && x[k] < y[k] && forall|m: int| 0 <= m < k ==> x[m] == y[m])
            || (x.len() < y.len() && forall|m: int| 0 <= m < x.len() ==> x[m] == y[m]),
    decreases x.len(),
{
    if x.len() > 0 && x[0] == y[0] {
        lemma_text_less_first_difference(x.drop_first(), y.drop_first());
        let (xs, ys) = (x.drop_first(), y.drop_first());
        if exists|k: int|
            0 <= k < xs.len() && k < ys.len() && xs[k] < ys[k] && forall|m: int| 0 <= m < k ==> xs[m] == ys[m] {
            let k = choose|k: int|
                0 <= k < xs.len() && k < ys.len() && xs[k] < ys[k] && forall|m: int| 0 <= m < k ==> xs[m] == ys[m];
            assert(x[k + 1] < y[k + 1]);
            assert forall|m: int| 0 <= m < k + 1 implies x[m] == y[m] by {
                if m > 0 {
                    assert(x[m] == xs[m - 1] && y[m] == ys[m - 1]);
                }
            }
        } else {
            assert forall|m: int| 0 <= m < x.len() implies x[m] == y[m] by {
                if m > 0 {
                    assert(x[m] == xs[m - 1] && y[m] == ys[m - 1]);
                }
            }
        }
    } else if x.len() > 0 {
        assert(x[0] < y[0]);
        assert(forall|m: int| 0 <= m < 0 ==> x[m] == y[m]);
    }
}

/// Children in label order come by category letter, then tag BB, then tag
/// CC, then serial: every child is no greater than any child after it. In
/// particular two children with the same letter and BB come in the order of
/// their CC, whatever their serials.
pub proof fn law_label_order_is_lexicographic(s: Seq<Element>)
    requires
        sorted_by_key(s),
    ensures
        forall|i: int, j: int| 0 <= i < j < s.len() ==> label_order(#[trigger] s[i], #[trigger] s[j]),
{
    assert forall|i: int, j: int| 0 <= i < j < s.len() implies label_order(#[trigger] s[i], #[trigger] s[j]) by {
        let (a, b) = (s[i], s[j]);
        assert(!key_less(b, a));
        lemma_text_less_total(a.tag_a@, b.tag_a@);
        lemma_text_less_irreflexive(a.tag_a@);
        if text_less(a.tag_a@, b.tag_a@) {
            lemma_text_less_first_difference(a.tag_a@, b.tag_a@);
        }
    }
}

} // verus!
