//! The `.boxdoc` project format: the document plus its images as Base64
//! PNG, with an embedded guide for agents that edit the file directly.
use vstd::prelude::*;
use vstd::string::StringExecFns;

use crate::codec::{base64_decoded, base64_encoding, base64_len, Decoded};
use crate::editor::{ids_below, ids_unique, EditorApp};
use crate::history::HistoryView;
use crate::model::{Document, Element};
use crate::store::{image_bytes, ImageStore};

verus! {

broadcast use vstd::std_specs::hash::group_hash_axioms;

/// One image of a project file: the element id and the Base64 PNG bytes.
pub struct ProjectImage {
    pub id: u64,
    pub png_base64: String,
}

/// The complete guide that every `.boxdoc` file carries, so that an agent
/// editing the file knows its format. It is ignored when loading.
pub const AI_HINT: &'static str = r#"BoxDoc-Dokument-Format (.boxdoc) — Anleitung für KI-Agenten
=======================================================

Diese Datei ist die komplette AI-Schnittstelle. Es gibt kein zusätzliches
Protokoll, keine API, keine Sockets. Du (die KI) liest und bearbeitest die
Datei direkt mit deinen normalen Datei-Werkzeugen — wie eine Quellcode-Datei.

Wenn BoxDoc läuft und diese Datei geöffnet hat, übernimmt es jede externe
Änderung automatisch (≤ 300 ms) als Undo-Schritt. Der Nutzer sieht sie live
und kann sie mit Strg+Z zurückrollen.

DATEIFORMAT
-----------
{
  "doc": {
    "format": "A4" | "A3" | "A5" | "Letter" | "Legal",
    "orientation": "Portrait" | "Landscape",
    "pages": [ { "elements": [ <Element>, ... ] } ]
  },
  "images": [ { "id": <u64>, "png_base64": "<base64-PNG-Bytes>" } ]
}

ELEMENT (je nach "kind" sind verschiedene Felder relevant)
---------------------------------------------------------
{
  "id": <u64>,                       // stabil, niemals ändern beim Update
  "kind": "Text" | "Image" | "Rectangle" | "Line",
  "x": <f32 pt>,                     // linke obere Ecke (unrotiert)
  "y": <f32 pt>,
  "w": <f32 pt>,                     // Breite
  "h": <f32 pt>,                     // Höhe (bei "Line" = 0)
  "rotation": <Grad>,                // gegen Uhrzeigersinn
  "text": "<Inhalt>",                // kann \n enthalten
  "font_size": <pt>,
  "font": "default"|"inter"|"roboto"|"lora"|"jetbrains"|"pacifico",
  "color": [r, g, b, a],             // 0..255; a=255 deckend
  "bold": <bool>, "italic": <bool>, "underline": <bool>,
  "align": "Left"|"Center"|"Right", "valign": "Top"|"Middle"|"Bottom",
  "indent": <pt>,
  "crop": { "x":0.0, "y":0.0, "w":1.0, "h":1.0 },  // Image; normalisiert 0..1
  "image_w": <px>, "image_h": <px>,                // Image
  "fill_color": [r,g,b,a],           // Shape; Alpha 0 = transparent
  "stroke_width": <pt>,              // Shape; 0 = kein Rahmen
  "stroke_color": [r,g,b,a],         // Shape
  "corner_radius": <pt>              // Rectangle
}

ELEMENT-TYPEN
-------------
Text       : text, font_size, font, color, bold, italic, underline, align, valign
Rectangle  : fill_color, stroke_width, stroke_color, corner_radius
Line       : stroke_width, stroke_color (Linie = Box mit h=0 + rotation)
Image      : id (verweist auf images[].id), crop, image_w, image_h

KOOORDINATENSYSTEM
------------------
- Maßeinheit: Punkt (1 pt = 1/72 Zoll; 1 Zoll = 25,4 mm)
- Ursprung: oben-links, y zeigt nach UNTEN
- A4 Hochformat: 595 x 842 pt | A4 Querformat: 842 x 595 pt
- 1 cm ≈ 28,3 pt | 1 mm ≈ 2,83 pt
- Z-Order: Elemente weiter hinten im Array liegen OBEN (werden zuletzt gezeichnet)

REGELN FÜR DIE KI
-----------------
1. Lies die Datei als JSON, verstehe das Dokument.
2. Ändere Felder direkt mit deinen normalen Edit-Tools.
3. IDs sind u64 und stabil. Beim Aktualisieren nur existierende IDs verwenden.
   Für neue Elemente: höchste vorhandene ID + 1.
4. Bilder (images, png_base64, image_w, image_h) UNVERÄNDERT lassen.
5. Nach jedem Speichern übernimmt BoxDoc die Änderung automatisch (≤ 300 ms).
6. Der Nutzer kann mit Strg+Z zurückrollen; BoxDoc schreibt den alten Stand zurück.
7. Ungültiges JSON wird still ignoriert — teilschreibende Dateien sind unkritisch.

DESIGN-LEITFADEN
----------------
- Titel 28-36pt bold, Überschrift 18-22pt bold, Fließtext 10-12pt, Footer 8-9pt
- Zeilenabstand: ca. 1,3x Schriftgröße
- Seitenrand: mindestens ~50 pt (≈ 1,8 cm)
- Eine Hauptfarbe + eine Akzentfarbe für ein ruhiges Bild
- Aufzählungen mit "• " prefixen, eine Zeile pro Punkt
- Z-Order: Dekorationen (Hintergrundbalken) VORNE im Array, Text HINTEN

BEISPIEL: Neues Text-Element hinzufügen (an elements anhängen)
--------------------------------------------------------------
{
  "id": <nächste freie ID>, "kind": "Text",
  "x": 100.0, "y": 200.0, "w": 400.0, "h": 40.0, "rotation": 0.0,
  "text": "Neuer Absatz", "font_size": 14.0, "font": "default",
  "color": [20,20,20,255], "bold": false, "italic": false, "underline": false,
  "align": "Left", "valign": "Top", "indent": 0.0,
  "crop": {"x":0,"y":0,"w":1,"h":1}, "image_w": 0, "image_h": 0,
  "fill_color": [80,140,220,60], "stroke_width": 2.0,
  "stroke_color": [40,100,180,255], "corner_radius": 0.0
}

Hinweis: Dieses Feld (_ai_hint) wird von BoxDoc beim Laden ignoriert.
Du kannst es beim Bearbeiten unverändert lassen oder löschen — BoxDoc wird
es beim nächsten Speichern wieder automatisch einfügen.
"#;

/// A project file: the document, its images and the embedded guide.
pub struct Project<G> {
    pub doc: Document<G>,
    pub images: Vec<ProjectImage>,
    /// The guide for agents; written on save, ignored on load.
    pub _ai_hint: Option<String>,
}

impl<G> Project<G> {
    /// A project for saving, with the guide embedded.
    pub fn for_save(doc: Document<G>, images: Vec<ProjectImage>) -> (p: Self)
        ensures
            p.doc == doc,
            p.images == images,
            p._ai_hint matches Some(h) && h@ == AI_HINT@,
    {
        Project { doc, images, _ai_hint: Some(String::from_str(AI_HINT)) }
    }
}

impl View for ProjectImage {
    type V = (u64, Seq<char>);

    open spec fn view(&self) -> (u64, Seq<char>) {
        (self.id, self.png_base64@)
    }
}

/// The largest element id on the given elements (0 when there are none).
pub open spec fn max_id_elements<G>(s: Seq<Element<G>>) -> nat
    decreases s.len(),
{
    if s.len() == 0 {
        0
    } else {
        let m = max_id_elements(s.drop_last());
        if s.last().id > m {
            s.last().id as nat
        } else {
            m
        }
    }
}

/// The largest element id of a document (0 when it has no elements).
pub open spec fn max_id_pages<G>(p: Seq<Seq<Element<G>>>) -> nat
    decreases p.len(),
{
    if p.len() == 0 {
        0
    } else {
        let m = max_id_pages(p.drop_last());
        let l = max_id_elements(p.last());
        if l > m {
            l
        } else {
            m
        }
    }
}

/// Some image has the id `id`.
pub open spec fn has_id(imgs: Seq<ProjectImage>, id: u64) -> bool {
    exists|i: int| 0 <= i < imgs.len() && imgs[i].id == id
}

/// `imgs` are the store's images as saved: one per stored id, each the
/// Base64 text of the stored bytes, which decodes back to them.
pub open spec fn saved_images(store: Map<u64, (Seq<u8>, (u32, u32))>, imgs: Seq<ProjectImage>) -> bool {
    &&& imgs.len() == store.dom().len()
    &&& forall|i: int, j: int| 0 <= i < j < imgs.len() ==> imgs[i].id != imgs[j].id
    &&& forall|i: int|
        0 <= i < imgs.len() ==> store.contains_key(#[trigger] imgs[i].id) && imgs[i].png_base64@
            == base64_encoding(store[imgs[i].id].0) && base64_decoded(imgs[i].png_base64@)
            == crate::codec::decoded_ok(store[imgs[i].id].0)
    &&& forall|id: u64| #[trigger] store.contains_key(id) ==> has_id(imgs, id)
}

/// No element id exceeds the largest one of its elements.
proof fn lemma_max_id_elements_bounds<G>(s: Seq<Element<G>>)
    ensures
        forall|e: int| 0 <= e < s.len() ==> (#[trigger] s[e]).id <= max_id_elements(s),
    decreases s.len(),
{
    if s.len() > 0 {
        lemma_max_id_elements_bounds(s.drop_last());
        assert forall|e: int| 0 <= e < s.len() implies (#[trigger] s[e]).id <= max_id_elements(s) by {
            if e < s.len() - 1 {
                assert(s[e] == s.drop_last()[e]);
            }
        }
    }
}

/// No element id of a document exceeds the largest one.
proof fn lemma_max_id_bounds<G>(pages: Seq<Seq<Element<G>>>)
    ensures
        forall|p: int, e: int|
            0 <= p < pages.len() && 0 <= e < pages[p].len() ==> (#[trigger] pages[p][e]).id
                <= max_id_pages(pages),
    decreases pages.len(),
{
    if pages.len() > 0 {
        lemma_max_id_bounds(pages.drop_last());
        lemma_max_id_elements_bounds(pages.last());
        assert forall|p: int, e: int| 0 <= p < pages.len() && 0 <= e < pages[p].len() implies (
        #[trigger] pages[p][e]).id <= max_id_pages(pages) by {
            if p < pages.len() - 1 {
                assert(pages[p] == pages.drop_last()[p]);
            }
        }
    }
}

/// The image bytes that loading the project images gives, in file order
/// (a later record of an id replaces an earlier one); the first text that
/// is no valid Base64 makes the whole load fail with its error.
pub open spec fn loaded_images(
    imgs: Seq<(u64, Seq<char>)>,
    m: Map<u64, Seq<u8>>,
) -> Result<Map<u64, Seq<u8>>, Seq<char>>
    decreases imgs.len(),
{
    if imgs.len() == 0 {
        Ok(m)
    } else {
        match base64_decoded(imgs[0].1) {
            Err(e) => Err(e),
            Ok(png) => loaded_images(imgs.skip(1), m.insert(imgs[0].0, png)),
        }
    }
}

/// The image bytes that loading the project images leniently gives: a text
/// that is no valid Base64 gives an empty image.
pub open spec fn loaded_images_lenient(imgs: Seq<(u64, Seq<char>)>, m: Map<u64, Seq<u8>>) -> Map<
    u64,
    Seq<u8>,
>
    decreases imgs.len(),
{
    if imgs.len() == 0 {
        m
    } else {
        let png = match base64_decoded(imgs[0].1) {
            Ok(b) => b,
            Err(_) => Seq::<u8>::empty(),
        };
        loaded_images_lenient(imgs.skip(1), m.insert(imgs[0].0, png))
    }
}

/// Storing bytes under an id adds them to the bytes of the store.
proof fn lemma_bytes_insert(m: Map<u64, (Seq<u8>, (u32, u32))>, id: u64, png: Seq<u8>, dim: (u32, u32))
    ensures
        image_bytes(m.insert(id, (png, dim))) == image_bytes(m).insert(id, png),
{
    assert(image_bytes(m.insert(id, (png, dim))) =~= image_bytes(m).insert(id, png));
}

/// The largest element id, computed.
pub fn max_element_id<G>(doc: &Document<G>) -> (m: u64)
    ensures
        m == max_id_pages(doc@.pages),
{
    let mut m: u64 = 0;
    let mut p: usize = 0;
    while p < doc.pages.len()
        invariant
            p <= doc.pages@.len(),
            m == max_id_pages(doc@.pages.take(p as int)),
        decreases doc.pages@.len() - p,
    {
        let els = &doc.pages[p].elements;
        let mut e: usize = 0;
        let mut pm: u64 = 0;
        while e < els.len()
            invariant
                e <= els@.len(),
                pm == max_id_elements(els@.take(e as int)),
            decreases els@.len() - e,
        {
            assert(els@.take(e + 1).drop_last() =~= els@.take(e as int));
            if els[e].id > pm {
                pm = els[e].id;
            }
            e = e + 1;
        }
        assert(els@.take(els@.len() as int) =~= els@);
        assert(doc@.pages.take(p + 1).drop_last() =~= doc@.pages.take(p as int));
        assert(doc@.pages[p as int] == els@);
        if pm > m {
            m = pm;
        }
        p = p + 1;
    }
    assert(doc@.pages.take(doc@.pages.len() as int) =~= doc@.pages);
    m
}

/// The images of the store for saving, each as Base64 of its bytes; the
/// order is that of the store's hash map.
pub fn project_images(store: &ImageStore) -> (r: Vec<ProjectImage>)
    requires
        forall|id: u64| #[trigger] store@.contains_key(id) ==> base64_len(store@[id].0.len()) <= usize::MAX,
    ensures
        saved_images(store@, r@),
{
    let mut r: Vec<ProjectImage> = Vec::new();
    assert(store@.dom() =~= store.map@.dom());
    for k in it: store.map.keys()
        invariant
            forall|id: u64| #[trigger] store@.contains_key(id) ==> base64_len(store@[id].0.len()) <= usize::MAX,
            it.seq().unref().to_set() == store.map@.dom(),
            it.seq().no_duplicates(),
            it.seq().len() == store@.dom().len(),
            store@.dom() == store.map@.dom(),
            forall|id: u64| #[trigger] store@.contains_key(id) ==> exists|i: int| 0 <= i < it.seq().len() && *it.seq()[i] == id,
            r@.len() == it.index(),
            forall|i: int| 0 <= i < it.index() ==> r@[i].id == *it.seq()[i],
            forall|i: int, j: int| 0 <= i < j < r@.len() ==> r@[i].id != r@[j].id,
            forall|i: int|
                0 <= i < r@.len() ==> store@.contains_key(#[trigger] r@[i].id) && r@[i].png_base64@
                    == base64_encoding(store@[r@[i].id].0) && base64_decoded(r@[i].png_base64@)
                    == crate::codec::decoded_ok(store@[r@[i].id].0),
    {
        let id = *k;
        assert(forall|i: int| 0 <= i < r@.len() ==> r@[i].id != id) by {
            assert forall|i: int| 0 <= i < r@.len() implies r@[i].id != id by {
                assert(it.seq()[i] != it.seq()[it.index() as int]);
            }
        }
        assert(it.seq().unref().to_set().contains(id)) by {
            assert(it.seq().unref()[it.index() as int] == id);
        }
        match store.map.get(&id) {
            Some(entry) => {
                assert(store@[id] == entry.value());
                r.push(ProjectImage { id, png_base64: crate::codec::encode_base64(entry.png.as_slice()) });
            },
            None => {},
        }
    }
    assert forall|id: u64| #[trigger] store@.contains_key(id) implies has_id(r@, id) by {
        let i = choose|i: int| 0 <= i < r@.len() && r@[i].id == id;
        assert(r@[i].id == id);
    }
    r
}

pub open spec fn loaded_ok(m: Map<u64, Seq<u8>>) -> Result<Map<u64, Seq<u8>>, Seq<char>> {
    Ok(m)
}

pub open spec fn loaded_err(e: Seq<char>) -> Result<Map<u64, Seq<u8>>, Seq<char>> {
    Err(e)
}

/// The (id, Base64 text) records of project images.
pub open spec fn image_records(v: Seq<ProjectImage>) -> Seq<(u64, Seq<char>)> {
    v.map_values(|p: ProjectImage| p@)
}

/// Decodes one project image: its bytes, the pixel size that decoding them
/// as an image reports ((0, 0) when they do not decode) and that decoding,
/// or the Base64 error.
fn decode_project_image(img: &ProjectImage) -> (r: Result<(Vec<u8>, (u32, u32), Decoded), String>)
    ensures
        match r {
            Ok((png, dim, d)) => {
                &&& base64_decoded(img.png_base64@) == crate::codec::decoded_ok(png@)
                &&& d.source() == png@
                &&& dim == (match d.outcome() {
                    Ok(size) => size,
                    Err(_) => (0u32, 0u32),
                })
            },
            Err(e) => base64_decoded(img.png_base64@) matches Err(m) && m == e@,
        },
{
    match crate::codec::decode_base64(img.png_base64.as_str()) {
        Ok(png) => {
            let d = crate::codec::image_size(png.as_slice());
            let dim = crate::codec::size_or(d.result(), (0, 0));
            Ok((png, dim, d))
        },
        Err(e) => Err(e),
    }
}

/// Loads a parsed project: decodes its images into a store and finds the
/// next free element id (one past the largest). A Base64 error fails the
/// load with its text.
pub fn load_project<G>(project: Project<G>) -> (r: Result<(Document<G>, ImageStore, u64), String>)
    requires
        max_id_pages(project.doc@.pages) < u64::MAX,
    ensures
        match r {
            Ok((doc, images, next_id)) => {
                &&& loaded_images(image_records(project.images@), Map::empty()) == loaded_ok(
                    image_bytes(images@),
                )
                &&& doc@ == project.doc@
                &&& next_id == max_id_pages(project.doc@.pages) + 1
                &&& ids_below(doc@, next_id as int)
            },
            Err(e) => loaded_images(image_records(project.images@), Map::empty()) == loaded_err(e@),
        },
{
    let mut images = ImageStore::new();
    let ghost recs = image_records(project.images@);
    let mut i: usize = 0;
    assert(recs.skip(0) =~= recs);
    assert(image_bytes(images@) =~= Map::<u64, Seq<u8>>::empty());
    while i < project.images.len()
        invariant
            i <= project.images@.len(),
            recs == image_records(project.images@),
            loaded_images(recs.skip(i as int), image_bytes(images@)) == loaded_images(recs, Map::empty()),
        decreases project.images@.len() - i,
    {
        assert(recs.skip(i as int)[0] == project.images@[i as int]@);
        assert(recs.skip(i as int).skip(1) =~= recs.skip(i + 1));
        match decode_project_image(&project.images[i]) {
            Ok((png, dim, _)) => {
                proof {
                    lemma_bytes_insert(images@, project.images[i as int].id, png@, dim);
                }
                images.insert(project.images[i].id, png, dim);
            },
            Err(e) => {
                return Err(e);
            },
        }
        i = i + 1;
    }
    assert(recs.skip(i as int) =~= Seq::<(u64, Seq<char>)>::empty());
    let max_id = max_element_id(&project.doc);
    proof {
        lemma_max_id_bounds(project.doc@.pages);
    }
    Ok((project.doc, images, max_id + 1))
}

/// Loads the project images leniently: a text that is no valid Base64
/// gives an empty image; each size is what decoding the bytes reports
/// ((0, 0) when they do not decode as an image).
fn load_images_lenient(imgs: &Vec<ProjectImage>) -> (r: ImageStore)
    ensures
        image_bytes(r@) == loaded_images_lenient(image_records(imgs@), Map::empty()),
{
    let mut images = ImageStore::new();
    let ghost recs = image_records(imgs@);
    let mut i: usize = 0;
    assert(recs.skip(0) =~= recs);
    assert(image_bytes(images@) =~= Map::<u64, Seq<u8>>::empty());
    while i < imgs.len()
        invariant
            i <= imgs@.len(),
            recs == image_records(imgs@),
            loaded_images_lenient(recs.skip(i as int), image_bytes(images@)) == loaded_images_lenient(
                recs,
                Map::empty(),
            ),
        decreases imgs@.len() - i,
    {
        assert(recs.skip(i as int)[0] == imgs@[i as int]@);
        assert(recs.skip(i as int).skip(1) =~= recs.skip(i + 1));
        let png = match crate::codec::decode_base64(imgs[i].png_base64.as_str()) {
            Ok(b) => b,
            Err(_) => Vec::new(),
        };
        let dim = crate::codec::size_or(crate::codec::image_size(png.as_slice()).result(), (0, 0));
        proof {
            lemma_bytes_insert(images@, imgs[i as int].id, png@, dim);
        }
        images.insert(imgs[i].id, png, dim);
        i = i + 1;
    }
    assert(recs.skip(i as int) =~= Seq::<(u64, Seq<char>)>::empty());
    images
}

impl<G: Copy> EditorApp<G> {
    /// The project to save for the editor's document and images.
    pub fn project_for_save(&self) -> (p: Project<G>)
        requires
            forall|id: u64| #[trigger] self.images@.contains_key(id) ==> base64_len(self.images@[id].0.len()) <= usize::MAX,
        ensures
            p.doc@ == self.doc@,
            p._ai_hint matches Some(h) && h@ == AI_HINT@,
            saved_images(self.images@, p.images@),
    {
        Project::for_save(self.doc.clone(), project_images(&self.images))
    }
}

impl<G: Copy> EditorApp<G> {
    /// Replaces the document with one just opened: first page, no
    /// selection, nothing being edited, unmodified, and a history that
    /// starts there.
    pub fn open_loaded(&mut self, doc: Document<G>, images: ImageStore, next_id: u64, status: String)
        ensures
            final(self).doc == doc,
            final(self).images == images,
            final(self).page_index == 0,
            final(self).next_id == next_id,
            final(self).selection@ == Seq::<u64>::empty(),
            final(self).editing is None,
            !final(self).crop_mode,
            !final(self).modified,
            final(self).status@ == status@,
            final(self).edit_focus == old(self).edit_focus,
            final(self).same_clipboard(*old(self)),
            final(self).history@ == HistoryView::initialized(final(self).snapshot_value()),
            ids_below(doc@, next_id as int) && ids_unique(doc@) ==> final(self).ids_fresh(),
    {
        self.doc = doc;
        self.images = images;
        self.page_index = 0;
        self.next_id = next_id;
        self.clear_selection();
        self.editing = None;
        self.crop_mode = false;
        self.modified = false;
        self.status = status;
        let snap = self.snapshot();
        self.history.init(snap);
    }

    /// Opens a project read from text (the text already parsed, or the
    /// parse error): images that are no valid Base64 become empty.
    pub fn load_project_from_json(&mut self, parsed: Result<Project<G>, String>)
        requires
            parsed matches Ok(p) ==> max_id_pages(p.doc@.pages) < u64::MAX,
        ensures
            match parsed {
                Ok(p) => {
                    &&& final(self).doc == p.doc
                    &&& image_bytes(final(self).images@) == loaded_images_lenient(
                        image_records(p.images@),
                        Map::empty(),
                    )
                    &&& final(self).page_index == 0
                    &&& final(self).next_id == max_id_pages(p.doc@.pages) + 1
                    &&& ids_below(final(self).doc@, final(self).next_id as int)
                    &&& final(self).selection@ == Seq::<u64>::empty()
                    &&& final(self).editing is None
                    &&& !final(self).crop_mode
                    &&& !final(self).modified
                    &&& final(self).status@ == "Dokument geöffnet."@
                    &&& final(self).history@ == HistoryView::initialized(final(self).snapshot_value())
                    &&& ids_unique(final(self).doc@) ==> final(self).ids_fresh()
                },
                Err(e) => {
                    &&& final(self).status@ == "Fehler beim Öffnen: "@ + e@
                    &&& final(self).doc == old(self).doc
                    &&& final(self).images == old(self).images
                    &&& final(self).page_index == old(self).page_index
                    &&& final(self).next_id == old(self).next_id
                    &&& final(self).selection == old(self).selection
                    &&& final(self).editing == old(self).editing
                    &&& final(self).crop_mode == old(self).crop_mode
                    &&& final(self).modified == old(self).modified
                    &&& final(self).history == old(self).history
                },
            },
            final(self).edit_focus == old(self).edit_focus,
            final(self).same_clipboard(*old(self)),
    {
        match parsed {
            Ok(project) => {
                let images = load_images_lenient(&project.images);
                let max_id = max_element_id(&project.doc);
                proof {
                    lemma_max_id_bounds(project.doc@.pages);
                }
                self.open_loaded(project.doc, images, max_id + 1, String::from_str("Dokument geöffnet."));
            },
            Err(e) => {
                let mut st = String::from_str("Fehler beim Öffnen: ");
                crate::text::push_str(&mut st, e.as_str());
                self.status = st;
            },
        }
    }
}

/// Loading records that all decode: the result is `m` with each record's
/// id mapped to the bytes stored under it.
proof fn lemma_loaded_from(
    imgs: Seq<ProjectImage>,
    m: Map<u64, Seq<u8>>,
    store: Map<u64, (Seq<u8>, (u32, u32))>,
)
    requires
        forall|i: int|
            0 <= i < imgs.len() ==> store.contains_key(#[trigger] imgs[i].id) && base64_decoded(
                imgs[i].png_base64@,
            ) == crate::codec::decoded_ok(store[imgs[i].id].0),
    ensures
        loaded_images(image_records(imgs), m) matches Ok(v) && (forall|k: u64|
            #[trigger] v.contains_key(k) <==> (m.contains_key(k) || has_id(imgs, k))) && (forall|k: u64|
            #[trigger] has_id(imgs, k) ==> v[k] == store[k].0) && (forall|k: u64|
            m.contains_key(k) && !has_id(imgs, k) ==> #[trigger] v[k] == m[k]),
    decreases imgs.len(),
{
    let recs = image_records(imgs);
    if imgs.len() > 0 {
        let rest = imgs.skip(1);
        assert(image_records(rest) =~= recs.skip(1));
        let id = imgs[0].id;
        let png = store[id].0;
        assert(recs[0] == (id, imgs[0].png_base64@));
        let m2 = m.insert(id, png);
        assert forall|i: int| 0 <= i < rest.len() implies store.contains_key(#[trigger] rest[i].id)
            && base64_decoded(rest[i].png_base64@) == crate::codec::decoded_ok(store[rest[i].id].0) by {
            assert(rest[i] == imgs[i + 1]);
        }
        lemma_loaded_from(rest, m2, store);
        assert forall|k: u64| has_id(imgs, k) <==> (k == id || has_id(rest, k)) by {
            if has_id(imgs, k) {
                let i = choose|i: int| 0 <= i < imgs.len() && imgs[i].id == k;
                if i > 0 {
                    assert(rest[i - 1] == imgs[i]);
                }
            }
            if has_id(rest, k) {
                let i = choose|i: int| 0 <= i < rest.len() && rest[i].id == k;
                assert(imgs[i + 1] == rest[i]);
            }
            if k == id {
                assert(imgs[0].id == k);
            }
        }
    } else {
        assert forall|k: u64| !has_id(imgs, k) by {}
    }
}

/// Saving a project and loading it again gives back the bytes of every
/// stored image under its id (the document is handed over unchanged, and
/// the sizes are what decoding the bytes reports).
pub proof fn lemma_load_saved_images(store: Map<u64, (Seq<u8>, (u32, u32))>, imgs: Seq<ProjectImage>)
    requires
        saved_images(store, imgs),
    ensures
        loaded_images(image_records(imgs), Map::empty()) == loaded_ok(image_bytes(store)),
{
    lemma_loaded_from(imgs, Map::empty(), store);
    let v = loaded_images(image_records(imgs), Map::empty())->Ok_0;
    assert forall|k: u64| #[trigger] v.contains_key(k) <==> store.contains_key(k) by {
        if has_id(imgs, k) {
            let i = choose|i: int| 0 <= i < imgs.len() && imgs[i].id == k;
            assert(store.contains_key(imgs[i].id));
        }
    }
    assert(v =~= image_bytes(store));
}

/// An image from the system clipboard; on this platform there is none.
pub fn poll_clipboard_image() -> (r: Option<Vec<u8>>)
    ensures
        r is None,
{
    None
}

/// A project read asynchronously in the browser; on the desktop there is
/// none.
pub fn take_pending_project() -> (r: Option<String>)
    ensures
        r is None,
{
    None
}

/// Image bytes read asynchronously in the browser; on the desktop there
/// are none.
pub fn take_pending_image() -> (r: Option<Vec<u8>>)
    ensures
        r is None,
{
    None
}

/// Registers the browser's paste listener; the desktop has none to
/// register.
pub fn install_clipboard_paste_listener() {
}

} // verus!
