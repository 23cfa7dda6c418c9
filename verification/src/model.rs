//! The document model: documents made of pages, pages made of elements.
//!
//! Positions, sizes, angles and the other metric properties of an element
//! live in its geometry `geom` of the caller's type `G`; the model keeps and
//! copies it but never looks inside.
use vstd::prelude::*;
use vstd::string::StringExecFns;

verus! {

/// Paper formats (the size itself is metric and lives with the geometry).
#[derive(Debug, Clone, Copy, PartialEq, Eq, Structural)]
pub enum PaperFormat {
    A3,
    A4,
    A5,
    Letter,
    Legal,
}

impl PaperFormat {
    /// The name shown for the format.
    pub open spec fn spec_label(self) -> Seq<char> {
        match self {
            PaperFormat::A3 => "A3"@,
            PaperFormat::A4 => "A4"@,
            PaperFormat::A5 => "A5"@,
            PaperFormat::Letter => "Letter"@,
            PaperFormat::Legal => "Legal"@,
        }
    }

    pub fn label(self) -> (r: &'static str)
        ensures
            r@ == self.spec_label(),
    {
        match self {
            PaperFormat::A3 => "A3",
            PaperFormat::A4 => "A4",
            PaperFormat::A5 => "A5",
            PaperFormat::Letter => "Letter",
            PaperFormat::Legal => "Legal",
        }
    }

    /// All formats, in the order the format menu lists them.
    pub fn all() -> (r: [PaperFormat; 5])
        ensures
            r@ == seq![
                PaperFormat::A4,
                PaperFormat::A3,
                PaperFormat::A5,
                PaperFormat::Letter,
                PaperFormat::Legal,
            ],
    {
        let r = [PaperFormat::A4, PaperFormat::A3, PaperFormat::A5, PaperFormat::Letter, PaperFormat::Legal];
        assert(r@ =~= seq![
            PaperFormat::A4,
            PaperFormat::A3,
            PaperFormat::A5,
            PaperFormat::Letter,
            PaperFormat::Legal,
        ]);
        r
    }
}

#[derive(Debug, Clone, Copy, PartialEq, Eq, Structural)]
pub enum Orientation {
    Portrait,
    Landscape,
}

/// Horizontal text alignment.
#[derive(Debug, Clone, Copy, PartialEq, Eq, Structural)]
pub enum TextAlign {
    Left,
    Center,
    Right,
}

/// Vertical text alignment.
#[derive(Debug, Clone, Copy, PartialEq, Eq, Structural)]
pub enum VAlign {
    Top,
    Middle,
    Bottom,
}

#[derive(Debug, Clone, Copy, PartialEq, Eq, Structural)]
pub enum ElementKind {
    Text,
    Image,
    Rectangle,
    Line,
}

/// A single object on a page.
pub struct Element<G> {
    pub id: u64,
    pub kind: ElementKind,
    /// Position, size, rotation and the other metric properties.
    pub geom: G,
    // --- text ---
    pub text: String,
    pub font: String,
    pub color: [u8; 4],
    pub bold: bool,
    pub italic: bool,
    pub underline: bool,
    pub align: TextAlign,
    pub valign: VAlign,
    // --- image ---
    /// Pixel size of the loaded image.
    pub image_w: u32,
    pub image_h: u32,
    // --- shapes ---
    pub fill_color: [u8; 4],
    pub stroke_color: [u8; 4],
}

/// The spacing of the `f32` values around `v`: the smallest power of two
/// `u` (searching upward from `u`) for which `v / u` fits a 24-bit mantissa.
pub open spec fn f32_spacing(v: nat, u: nat) -> nat
    decreases v - u,
    when u > 0
{
    if v / u < 0x100_0000 {
        u
    } else {
        proof {
            lemma_spacing_grows(v, u);
        }
        f32_spacing(v, 2 * u)
    }
}

pub proof fn lemma_spacing_grows(v: nat, u: nat)
    requires
        u > 0,
        v / u >= 0x100_0000,
    ensures
        v >= 2 * u,
{
    assert(v >= 2 * u) by (nonlinear_arith)
        requires
            u > 0,
            v / u >= 0x100_0000,
    ;
}

/// What a `u32` becomes after a round trip through `f32`: rounded to the
/// nearest value with a 24-bit mantissa, ties to even, and saturated at
/// `u32::MAX` where that rounds up to 2^32.
pub open spec fn through_f32(v: nat) -> nat {
    let u = f32_spacing(v, 1);
    let q = v / u;
    let r = v % u;
    let rounded = if 2 * r > u || (2 * r == u && q % 2 == 1) {
        (q + 1) * u
    } else {
        q * u
    };
    if rounded > u32::MAX { u32::MAX as nat } else { rounded }
}

/// A `u32` after a round trip through `f32` (see `through_f32`).
pub fn u32_through_f32(v: u32) -> (r: u32)
    ensures
        r == through_f32(v as nat),
{
    let v64 = v as u64;
    let mut u: u64 = 1;
    while v64 / u >= 0x100_0000
        invariant
            u > 0,
            u <= v64 + 1,
            v64 == v,
            f32_spacing(v as nat, u as nat) == f32_spacing(v as nat, 1),
        decreases v64 - u,
    {
        proof {
            assert(v64 == v as nat);
            assert((v as nat) / (u as nat) >= 0x100_0000);
            lemma_spacing_grows(v as nat, u as nat);
            assert(f32_spacing(v as nat, u as nat) == f32_spacing(v as nat, 2 * (u as nat)));
        }
        u = u * 2;
    }
    let q = v64 / u;
    let r = v64 % u;
    proof {
        assert(q * u <= v64 && r < u) by (nonlinear_arith)
            requires
                q == v64 / u,
                r == v64 % u,
                u > 0,
        ;
    }
    let rounded: u64 = if 2 * r > u || (2 * r == u && q % 2 == 1) {
        proof {
            assert((q + 1) * u == q * u + u) by (nonlinear_arith);
        }
        (q + 1) * u
    } else {
        q * u
    };
    if rounded > 0xFFFF_FFFFu64 {
        u32::MAX
    } else {
        rounded as u32
    }
}

impl<G> Element<G> {
    /// The default style of a new element: default font, unstyled, left and
    /// top aligned, default shape colors, no image size.
    pub open spec fn has_default_style(self) -> bool {
        &&& self.font@ == "default"@
        &&& !self.bold && !self.italic && !self.underline
        &&& self.align == TextAlign::Left
        &&& self.valign == VAlign::Top
        &&& self.fill_color == [80u8, 140u8, 220u8, 60u8]
        &&& self.stroke_color == [40u8, 100u8, 180u8, 255u8]
    }

    /// A text element as `new_text` makes it, apart from its text.
    pub open spec fn is_new_text(self, id: u64, geom: G) -> bool {
        &&& self.id == id
        &&& self.kind == ElementKind::Text
        &&& self.geom == geom
        &&& self.has_default_style()
        &&& self.color == [20u8, 20u8, 20u8, 255u8]
        &&& self.image_w == 0 && self.image_h == 0
    }

    /// An image element as `new_image` makes it for `w` x `h` pixels.
    pub open spec fn is_new_image(self, id: u64, w: u32, h: u32, geom: G) -> bool {
        &&& self.id == id
        &&& self.kind == ElementKind::Image
        &&& self.geom == geom
        &&& self.text@ == Seq::<char>::empty()
        &&& self.has_default_style()
        &&& self.color == [255u8, 255u8, 255u8, 255u8]
        &&& self.image_w == through_f32(if w == 0 { 1 } else { w as nat })
        &&& self.image_h == through_f32(if h == 0 { 1 } else { h as nat })
    }

    /// A shape element (rectangle or line) as `new_rectangle` or
    /// `new_line` makes it: empty text, default colors.
    pub open spec fn is_new_shape(self, id: u64, kind: ElementKind, geom: G) -> bool {
        &&& self.id == id
        &&& self.kind == kind
        &&& self.geom == geom
        &&& self.text@ == Seq::<char>::empty()
        &&& self.has_default_style()
        &&& self.color == [20u8, 20u8, 20u8, 255u8]
        &&& self.image_w == 0 && self.image_h == 0
    }
}

impl<G: Copy> Element<G> {
    /// A new text element with the default text and style.
    pub fn new_text(id: u64, geom: G) -> (el: Self)
        ensures
            el.is_new_text(id, geom),
            el.text@ == "Text"@,
    {
        Element {
            id,
            kind: ElementKind::Text,
            geom,
            text: String::from_str("Text"),
            font: String::from_str("default"),
            color: [20, 20, 20, 255],
            bold: false,
            italic: false,
            underline: false,
            align: TextAlign::Left,
            valign: VAlign::Top,
            image_w: 0,
            image_h: 0,
            fill_color: [80, 140, 220, 60],
            stroke_color: [40, 100, 180, 255],
        }
    }
    /// A new image element for a picture of `w` x `h` pixels (each at
    /// least 1); the stored pixel size went through `f32` on its way.
    pub fn new_image(id: u64, w: u32, h: u32, geom: G) -> (el: Self)
        ensures
            el.is_new_image(id, w, h, geom),
    {
        let w1 = if w == 0 { 1 } else { w };
        let h1 = if h == 0 { 1 } else { h };
        Element {
            id,
            kind: ElementKind::Image,
            geom,
            text: String::new(),
            font: String::from_str("default"),
            color: [255, 255, 255, 255],
            bold: false,
            italic: false,
            underline: false,
            align: TextAlign::Left,
            valign: VAlign::Top,
            image_w: u32_through_f32(w1),
            image_h: u32_through_f32(h1),
            fill_color: [80, 140, 220, 60],
            stroke_color: [40, 100, 180, 255],
        }
    }

    pub(crate) fn new_shape(id: u64, kind: ElementKind, geom: G) -> (el: Self)
        ensures
            el.is_new_shape(id, kind, geom),
    {
        Element {
            id,
            kind,
            geom,
            text: String::new(),
            font: String::from_str("default"),
            color: [20, 20, 20, 255],
            bold: false,
            italic: false,
            underline: false,
            align: TextAlign::Left,
            valign: VAlign::Top,
            image_w: 0,
            image_h: 0,
            fill_color: [80, 140, 220, 60],
            stroke_color: [40, 100, 180, 255],
        }
    }

    pub fn new_rectangle(id: u64, geom: G) -> (el: Self)
        ensures
            el.is_new_shape(id, ElementKind::Rectangle, geom),
    {
        Self::new_shape(id, ElementKind::Rectangle, geom)
    }

    pub fn new_line(id: u64, geom: G) -> (el: Self)
        ensures
            el.is_new_shape(id, ElementKind::Line, geom),
    {
        Self::new_shape(id, ElementKind::Line, geom)
    }
}

impl<G: Copy> Clone for Element<G> {
    fn clone(&self) -> (r: Self)
        ensures
            r == *self,
    {
        Element {
            id: self.id,
            kind: self.kind,
            geom: self.geom,
            text: self.text.clone(),
            font: self.font.clone(),
            color: self.color,
            bold: self.bold,
            italic: self.italic,
            underline: self.underline,
            align: self.align,
            valign: self.valign,
            image_w: self.image_w,
            image_h: self.image_h,
            fill_color: self.fill_color,
            stroke_color: self.stroke_color,
        }
    }
}

/// Copies a list of elements element by element.
pub fn clone_elements<G: Copy>(v: &Vec<Element<G>>) -> (r: Vec<Element<G>>)
    ensures
        r@ == v@,
{
    let mut r: Vec<Element<G>> = Vec::new();
    let mut i: usize = 0;
    while i < v.len()
        invariant
            i <= v.len(),
            r@ == v@.take(i as int),
        decreases v.len() - i,
    {
        r.push(v[i].clone());
        i = i + 1;
        assert(r@ =~= v@.take(i as int));
    }
    assert(v@.take(v.len() as int) =~= v@);
    r
}

/// A page: its elements in drawing order (later ones lie on top).
pub struct Page<G> {
    pub elements: Vec<Element<G>>,
}

impl<G> Page<G> {
    pub fn new() -> (p: Self)
        ensures
            p.elements@ == Seq::<Element<G>>::empty(),
    {
        Page { elements: Vec::new() }
    }
}

impl<G> Default for Page<G> {
    fn default() -> (p: Self)
        ensures
            p.elements@ == Seq::<Element<G>>::empty(),
    {
        Page { elements: Vec::new() }
    }
}

impl<G> View for Page<G> {
    type V = Seq<Element<G>>;

    open spec fn view(&self) -> Seq<Element<G>> {
        self.elements@
    }
}

impl<G: Copy> Clone for Page<G> {
    fn clone(&self) -> (r: Self)
        ensures
            r@ == self@,
    {
        Page { elements: clone_elements(&self.elements) }
    }
}

pub struct Document<G> {
    pub format: PaperFormat,
    pub orientation: Orientation,
    pub pages: Vec<Page<G>>,
}

/// A document as values: format, orientation and the elements of each page.
pub struct DocumentView<G> {
    pub format: PaperFormat,
    pub orientation: Orientation,
    pub pages: Seq<Seq<Element<G>>>,
}

impl<G> View for Document<G> {
    type V = DocumentView<G>;

    open spec fn view(&self) -> DocumentView<G> {
        DocumentView {
            format: self.format,
            orientation: self.orientation,
            pages: self.pages@.map_values(|p: Page<G>| p@),
        }
    }
}

impl<G> Document<G> {
    /// The empty document: A4 portrait with a single empty page.
    pub open spec fn is_default(self) -> bool {
        &&& self.format == PaperFormat::A4
        &&& self.orientation == Orientation::Portrait
        &&& self.pages@.len() == 1
        &&& self.pages@[0].elements@ == Seq::<Element<G>>::empty()
    }

    pub fn new() -> (d: Self)
        ensures
            d.is_default(),
    {
        let mut pages = Vec::new();
        pages.push(Page::new());
        Document { format: PaperFormat::A4, orientation: Orientation::Portrait, pages }
    }

    pub fn current_page(&self, index: usize) -> (r: Option<&Page<G>>)
        ensures
            index < self.pages@.len() ==> r == Some(&self.pages@[index as int]),
            index >= self.pages@.len() ==> r is None,
    {
        if index < self.pages.len() {
            Some(&self.pages[index])
        } else {
            None
        }
    }
}

impl<G> Default for Document<G> {
    fn default() -> (d: Self)
        ensures
            d.is_default(),
    {
        Document::new()
    }
}

impl<G: Copy> Clone for Document<G> {
    fn clone(&self) -> (r: Self)
        ensures
            r@ == self@,
    {
        let mut pages: Vec<Page<G>> = Vec::new();
        let mut i: usize = 0;
        while i < self.pages.len()
            invariant
                i <= self.pages.len(),
                pages@.len() == i,
                forall|j: int| 0 <= j < i ==> (#[trigger] pages@[j])@ == self.pages@[j]@,
            decreases self.pages.len() - i,
        {
            pages.push(self.pages[i].clone());
            i = i + 1;
        }
        let r = Document { format: self.format, orientation: self.orientation, pages };
        assert(r@.pages =~= self@.pages);
        r
    }
}

} // verus!
