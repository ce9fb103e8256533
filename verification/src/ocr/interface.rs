//! What text recognition delivers.

use crate::floats;
use crate::floats::is_equal_64;
use crate::screenshot::interface::{RgbImage, RgbImageView};
use vstd::prelude::*;

verus! {

/// A box by its centre and its size, relative to the image. All four are the bit patterns of
/// doubles.
#[derive(Clone, Copy, Debug, PartialEq, Eq, Structural)]
pub struct BoundingBox {
    pub center_x: u64,
    pub center_y: u64,
    pub width: u64,
    pub height: u64,
}

impl BoundingBox {
    /// The box with this centre and size.
    pub fn new(cx: u64, cy: u64, w: u64, h: u64) -> (r: Self)
        ensures
            r == (BoundingBox { center_x: cx, center_y: cy, width: w, height: h }),
    {
        BoundingBox { center_x: cx, center_y: cy, width: w, height: h }
    }
}

/// Whether two boxes are equal as numbers.
pub open spec fn equal_boxes(a: BoundingBox, b: BoundingBox) -> bool {
    &&& floats::equal_64(a.center_x, b.center_x)
    &&& floats::equal_64(a.center_y, b.center_y)
    &&& floats::equal_64(a.width, b.width)
    &&& floats::equal_64(a.height, b.height)
}

/// Whether two boxes are equal as numbers.
pub fn same_box(a: BoundingBox, b: BoundingBox) -> (r: bool)
    ensures
        r == equal_boxes(a, b),
{
    is_equal_64(a.center_x, b.center_x) && is_equal_64(a.center_y, b.center_y) && is_equal_64(
        a.width,
        b.width,
    ) && is_equal_64(a.height, b.height)
}

/// A recognised word.
#[derive(Debug)]
pub struct Word {
    pub text: String,
    pub separator: String,
    pub bounds: BoundingBox,
}

impl Clone for Word {
    fn clone(&self) -> (r: Self)
        ensures
            r == *self,
    {
        Word { text: self.text.clone(), separator: self.separator.clone(), bounds: self.bounds }
    }
}

/// Whether two words are equal: texts, separators and, as numbers, boxes.
pub open spec fn equal_words(a: Word, b: Word) -> bool {
    a.text@ == b.text@ && a.separator@ == b.separator@ && equal_boxes(a.bounds, b.bounds)
}

/// Whether two words are equal.
pub fn same_word(a: &Word, b: &Word) -> (r: bool)
    ensures
        r == equal_words(*a, *b),
{
    a.text == b.text && a.separator == b.separator && same_box(a.bounds, b.bounds)
}

/// A block of text made of words.
#[derive(Debug)]
pub struct Paragraph {
    pub full_text: String,
    pub words: Vec<Word>,
    pub bounds: BoundingBox,
    pub is_vertical: bool,
}

/// The contents of a `Paragraph`.
#[verifier::ext_equal]
pub struct ParagraphView {
    pub full_text: Seq<char>,
    pub words: Seq<Word>,
    pub bounds: BoundingBox,
    pub is_vertical: bool,
}

impl View for Paragraph {
    type V = ParagraphView;

    open spec fn view(&self) -> ParagraphView {
        ParagraphView {
            full_text: self.full_text@,
            words: self.words@,
            bounds: self.bounds,
            is_vertical: self.is_vertical,
        }
    }
}

impl Paragraph {
    /// A paragraph without text.
    pub fn new(bounds: BoundingBox, is_vertical: bool) -> (r: Self)
        ensures
            r@ == (ParagraphView {
                full_text: Seq::empty(),
                words: Seq::empty(),
                bounds,
                is_vertical,
            }),
    {
        let r = Paragraph { full_text: String::new(), words: Vec::new(), bounds, is_vertical };
        assert(r@.full_text =~= Seq::empty());
        r
    }
}

/// Appends copies of `more` to `words`.
pub fn append_words(words: &mut Vec<Word>, more: &Vec<Word>)
    ensures
        final(words)@ == old(words)@ + more@,
{
    let ghost before = words@;
    let mut i: usize = 0;
    while i < more.len()
        invariant
            i <= more@.len(),
            words@ == before + more@.take(i as int),
        decreases more@.len() - i,
    {
        words.push(more[i].clone());
        assert(words@ =~= before + more@.take(i + 1));
        i += 1;
    }
    assert(more@.take(i as int) =~= more@);
}

impl Clone for Paragraph {
    fn clone(&self) -> (r: Self)
        ensures
            r@ == self@,
    {
        let mut words: Vec<Word> = Vec::new();
        append_words(&mut words, &self.words);
        assert(words@ =~= self.words@);
        Paragraph {
            full_text: self.full_text.clone(),
            words,
            bounds: self.bounds,
            is_vertical: self.is_vertical,
        }
    }
}

/// The contents of paragraphs.
pub open spec fn paragraph_views(paragraphs: Seq<Paragraph>) -> Seq<ParagraphView> {
    paragraphs.map_values(|paragraph: Paragraph| paragraph@)
}

/// The contents of what a scan gave.
pub open spec fn scan_view(result: Result<Vec<Paragraph>, String>) -> Result<
    Seq<ParagraphView>,
    Seq<char>,
> {
    match result {
        Ok(paragraphs) => Ok(paragraph_views(paragraphs@)),
        Err(message) => Err(message@),
    }
}

/// Something that recognises text in images.
pub trait OcrProvider {
    /// The name of the provider. A verified provider defines it; with the definition given here
    /// the promise of `name` cannot be proved.
    open spec fn title(&self) -> Seq<char> {
        arbitrary()
    }

    /// Whether a scan of an image can give a result. A provider that is not verified can give
    /// any.
    open spec fn can_give(
        &self,
        image: RgbImageView,
        result: Result<Seq<ParagraphView>, Seq<char>>,
    ) -> bool {
        true
    }

    /// The name of the provider.
    fn name(&self) -> (r: &'static str)
        ensures
            r@ == self.title(),
    ;

    /// Recognises the text in an image.
    fn scan(&mut self, image: &RgbImage) -> (r: Result<Vec<Paragraph>, String>)
        ensures
            final(self).title() == old(self).title(),
            old(self).can_give(image@, scan_view(r)),
    ;
}

/// The contents of a paragraph are its text, its words, its box and its direction.
pub proof fn law_paragraphs_are_told_by_their_parts(paragraphs: Seq<Paragraph>, i: int)
    requires
        0 <= i < paragraphs.len(),
    ensures
        paragraph_views(paragraphs).len() == paragraphs.len(),
        paragraph_views(paragraphs)[i].full_text == paragraphs[i].full_text@,
        paragraph_views(paragraphs)[i].words == paragraphs[i].words@,
        paragraph_views(paragraphs)[i].bounds == paragraphs[i].bounds,
        paragraph_views(paragraphs)[i].is_vertical == paragraphs[i].is_vertical,
{
}

/// Words are equal if their texts and separators are, and their boxes have the same centres and
/// sides as numbers. Words that differ in one of these are not.
pub proof fn law_words_are_told_by_texts_and_boxes(a: Word, b: Word)
    ensures
        a.text@ != b.text@ || a.separator@ != b.separator@ ==> !equal_words(a, b),
        !floats::equal_64(a.bounds.center_x, b.bounds.center_x) ==> !equal_words(a, b),
        !floats::equal_64(a.bounds.center_y, b.bounds.center_y) ==> !equal_words(a, b),
        !floats::equal_64(a.bounds.width, b.bounds.width) ==> !equal_words(a, b),
        !floats::equal_64(a.bounds.height, b.bounds.height) ==> !equal_words(a, b),
        a.text@ == b.text@ && a.separator@ == b.separator@ && floats::equal_64(
            a.bounds.center_x,
            b.bounds.center_x,
        ) && floats::equal_64(a.bounds.center_y, b.bounds.center_y) && floats::equal_64(
            a.bounds.width,
            b.bounds.width,
        ) && floats::equal_64(a.bounds.height, b.bounds.height) ==> equal_words(a, b),
{
}

} // verus!
