//! A provider that always finds the same text.

use crate::floats::ONE_64;
use crate::ocr::interface;
use crate::ocr::interface::{BoundingBox, OcrProvider, Paragraph, ParagraphView, Word};
use crate::screenshot::interface::{RgbImage, RgbImageView};
use vstd::prelude::*;

verus! {

/// The name of the provider.
pub const NAME: &'static str = "Dummy OCR (Developer Template)";

/// A box in pixels: its left upper corner and its size.
#[derive(Clone, Copy, Debug, PartialEq, Eq, Structural)]
pub struct PixelBox {
    pub x: usize,
    pub y: usize,
    pub w: usize,
    pub h: usize,
}

impl PixelBox {
    /// The box with this corner and size.
    pub fn new(x: usize, y: usize, w: usize, h: usize) -> (r: Self)
        ensures
            r == (PixelBox { x, y, w, h }),
    {
        PixelBox { x, y, w, h }
    }

    /// Whether the box lies in an image with these sides.
    pub open spec fn lies_in(self, img_width: usize, img_height: usize) -> bool {
        self.x + self.w <= img_width && self.y + self.h <= img_height
    }

    /// The part of the box that lies in an image with these sides.
    pub open spec fn part_in(self, img_width: usize, img_height: usize) -> PixelBox {
        let (x, w) = stretch_in(self.x, self.w, img_width);
        let (y, h) = stretch_in(self.y, self.h, img_height);
        PixelBox { x, y, w, h }
    }

    fn cut(self, img_width: usize, img_height: usize) -> (r: Self)
        ensures
            r == self.part_in(img_width, img_height),
    {
        let (x, w): (usize, usize) = cut_stretch(self.x, self.w, img_width);
        let (y, h): (usize, usize) = cut_stretch(self.y, self.h, img_height);
        PixelBox { x, y, w, h }
    }
}

/// The part of a stretch that lies within a side: where it starts and how long it is.
pub open spec fn stretch_in(from: usize, length: usize, side: usize) -> (usize, usize) {
    if from >= side {
        (side, 0)
    } else if from + length > side {
        (from, (side - from) as usize)
    } else {
        (from, length)
    }
}

fn cut_stretch(from: usize, length: usize, side: usize) -> (r: (usize, usize))
    ensures
        r == stretch_in(from, length, side),
{
    if from >= side {
        (side, 0)
    } else if length > side - from {
        (from, side - from)
    } else {
        (from, length)
    }
}

/// Whether the numbers of a box are doubles from zero to one.
pub open spec fn is_relative(bounds: BoundingBox) -> bool {
    &&& bounds.center_x <= ONE_64
    &&& bounds.center_y <= ONE_64
    &&& bounds.width <= ONE_64
    &&& bounds.height <= ONE_64
}

/// A provider that finds two lines in every image. `normalized` gives a box relative to an image
/// of a width and a height.
#[derive(Debug)]
pub struct DummyProvider<N: Fn(PixelBox, usize, usize) -> BoundingBox> {
    normalized: N,
}

/// Whether a rule for relative boxes always gives the same box.
pub open spec fn is_steady<N: Fn(PixelBox, usize, usize) -> BoundingBox>(normalized: N) -> bool {
    &&& forall|b: PixelBox, w: usize, h: usize| #[trigger] call_requires(normalized, (b, w, h))
    &&& forall|b: PixelBox, w: usize, h: usize, x: BoundingBox, y: BoundingBox| #[trigger]
        call_ensures(normalized, (b, w, h), x) && #[trigger] call_ensures(
            normalized,
            (b, w, h),
            y,
        ) ==> x == y
}

/// Whether a rule for relative boxes gives numbers from zero to one for boxes that lie in their
/// image.
pub open spec fn keeps_range<N: Fn(PixelBox, usize, usize) -> BoundingBox>(normalized: N) -> bool {
    forall|b: PixelBox, w: usize, h: usize, x: BoundingBox| #[trigger]
        call_ensures(normalized, (b, w, h), x) && w > 0 && h > 0 && b.lies_in(w, h) ==> is_relative(
            x,
        )
}

/// A text and where it lies.
pub type Place = (Seq<char>, PixelBox);

/// The words of the line that is written across.
pub open spec fn horizontal_words() -> Seq<Place> {
    seq![
        ("これは"@, PixelBox { x: 100, y: 150, w: 90, h: 40 }),
        ("横書き"@, PixelBox { x: 200, y: 150, w: 90, h: 40 }),
        ("テキストです"@, PixelBox { x: 300, y: 150, w: 200, h: 40 }),
    ]
}

/// The words of the line that is written downwards.
pub open spec fn vertical_words() -> Seq<Place> {
    seq![
        ("縦"@, PixelBox { x: 600, y: 200, w: 50, h: 95 }),
        ("書"@, PixelBox { x: 600, y: 305, w: 50, h: 95 }),
        ("き"@, PixelBox { x: 600, y: 405, w: 50, h: 95 }),
    ]
}

/// Whether `paragraph` is a line with these words, each box cut to the image.
pub open spec fn is_line<N: Fn(PixelBox, usize, usize) -> BoundingBox>(
    normalized: N,
    img_width: usize,
    img_height: usize,
    line: Place,
    words: Seq<Place>,
    paragraph: ParagraphView,
) -> bool {
    &&& paragraph.full_text == line.0
    &&& call_ensures(
        normalized,
        (line.1.part_in(img_width, img_height), img_width, img_height),
        paragraph.bounds,
    )
    &&& is_relative(paragraph.bounds)
    &&& paragraph.is_vertical == (line.1.h > line.1.w)
    &&& paragraph.words.len() == words.len()
    &&& forall|i: int|
        0 <= i < words.len() ==> is_word(
            normalized,
            img_width,
            img_height,
            words[i],
            #[trigger] paragraph.words[i],
        )
}

/// Whether `word` is a word at a place.
pub open spec fn is_word<N: Fn(PixelBox, usize, usize) -> BoundingBox>(
    normalized: N,
    img_width: usize,
    img_height: usize,
    place: Place,
    word: Word,
) -> bool {
    &&& word.text@ == place.0
    &&& word.separator@.len() == 0
    &&& call_ensures(
        normalized,
        (place.1.part_in(img_width, img_height), img_width, img_height),
        word.bounds,
    )
    &&& is_relative(word.bounds)
}

/// Whether a scan of an image with these sides gives a result.
pub open spec fn gives<N: Fn(PixelBox, usize, usize) -> BoundingBox>(
    normalized: N,
    img_width: usize,
    img_height: usize,
    result: Result<Seq<ParagraphView>, Seq<char>>,
) -> bool {
    match result {
        Ok(paragraphs) => {
            &&& img_width > 0 && img_height > 0
            &&& paragraphs.len() == 2
            &&& is_line(
                normalized,
                img_width,
                img_height,
                ("これは横書きテキストです"@, PixelBox { x: 100, y: 150, w: 400, h: 40 }),
                horizontal_words(),
                paragraphs[0],
            )
            &&& is_line(
                normalized,
                img_width,
                img_height,
                ("縦書き"@, PixelBox { x: 600, y: 200, w: 50, h: 300 }),
                vertical_words(),
                paragraphs[1],
            )
        },
        Err(message) => (img_width == 0 || img_height == 0) && message
            == "Invalid image dimensions received."@,
    }
}

impl<N: Fn(PixelBox, usize, usize) -> BoundingBox> DummyProvider<N> {
    #[verifier::type_invariant]
    spec fn wf(self) -> bool {
        is_steady(self.normalized) && keeps_range(self.normalized)
    }

    /// The rule for relative boxes.
    pub closed spec fn rule(self) -> N {
        self.normalized
    }

    /// The provider with a rule for relative boxes.
    pub fn new(normalized: N) -> (r: Self)
        requires
            is_steady(normalized),
            keeps_range(normalized),
        ensures
            r.rule() == normalized,
    {
        DummyProvider { normalized }
    }

    fn word(
        &self,
        text: &str,
        bounds: PixelBox,
        img_width: usize,
        img_height: usize,
    ) -> (r: Word)
        requires
            img_width > 0,
            img_height > 0,
        ensures
            is_word(self.rule(), img_width, img_height, (text@, bounds), r),
    {
        proof {
            use_type_invariant(self);
        }
        Word {
            text: text.to_owned(),
            separator: String::new(),
            bounds: (self.normalized)(bounds.cut(img_width, img_height), img_width, img_height),
        }
    }

    /// The two lines, for an image with these sides. What lies outside the image is cut off, so
    /// that the numbers of all boxes are from zero to one.
    pub fn scan(&self, img_width: usize, img_height: usize) -> (r: Result<
        Vec<Paragraph>,
        String,
    >)
        ensures
            gives(self.rule(), img_width, img_height, interface::scan_view(r)),
    {
        proof {
            use_type_invariant(self);
        }
        if img_width == 0 || img_height == 0 {
            return Err("Invalid image dimensions received.".to_owned());
        }
        let (w, h) = (img_width, img_height);
        let mut across: Vec<Word> = Vec::new();
        across.push(self.word("これは", PixelBox::new(100, 150, 90, 40), w, h));
        across.push(self.word("横書き", PixelBox::new(200, 150, 90, 40), w, h));
        across.push(self.word("テキストです", PixelBox::new(300, 150, 200, 40), w, h));
        let mut down: Vec<Word> = Vec::new();
        down.push(self.word("縦", PixelBox::new(600, 200, 50, 95), w, h));
        down.push(self.word("書", PixelBox::new(600, 305, 50, 95), w, h));
        down.push(self.word("き", PixelBox::new(600, 405, 50, 95), w, h));
        let mut paragraphs: Vec<Paragraph> = Vec::new();
        paragraphs.push(
            Paragraph {
                full_text: "これは横書きテキストです".to_owned(),
                words: across,
                bounds: (self.normalized)(PixelBox::new(100, 150, 400, 40).cut(w, h), w, h),
                is_vertical: false,
            },
        );
        paragraphs.push(
            Paragraph {
                full_text: "縦書き".to_owned(),
                words: down,
                bounds: (self.normalized)(PixelBox::new(600, 200, 50, 300).cut(w, h), w, h),
                is_vertical: true,
            },
        );
        Ok(paragraphs)
    }
}

impl<N: Fn(PixelBox, usize, usize) -> BoundingBox> OcrProvider for DummyProvider<N> {
    open spec fn title(&self) -> Seq<char> {
        NAME@
    }

    open spec fn can_give(
        &self,
        image: RgbImageView,
        result: Result<Seq<ParagraphView>, Seq<char>>,
    ) -> bool {
        gives(self.rule(), image.width, image.height, result)
    }

    fn name(&self) -> (r: &'static str) {
        NAME
    }

    fn scan(&mut self, image: &RgbImage) -> (r: Result<Vec<Paragraph>, String>) {
        DummyProvider::scan(self, image.width, image.height)
    }
}

/// The part of a box in an image covers the pixels that both have, and lies in the image.
pub proof fn law_boxes_are_cut_to_the_image(
    b: PixelBox,
    img_width: usize,
    img_height: usize,
    x: int,
    y: int,
)
    ensures
        ({
            let part = b.part_in(img_width, img_height);
            &&& part.x + part.w <= img_width && part.y + part.h <= img_height
            &&& (part.x <= x < part.x + part.w && part.y <= y < part.y + part.h) <==> (b.x <= x
                < b.x + b.w && x < img_width && b.y <= y < b.y + b.h && y < img_height)
            &&& b.x + b.w <= img_width && b.y + b.h <= img_height && b.w > 0 && b.h > 0 ==> part
                == b
        }),
{
}

/// Boxes are relative to their image if none of their numbers is negative or exceeds one.
pub proof fn law_relative_boxes_go_up_to_one(bounds: BoundingBox)
    ensures
        is_relative(bounds) <==> bounds.center_x <= 0x3ff0_0000_0000_0000 && bounds.center_y
            <= 0x3ff0_0000_0000_0000 && bounds.width <= 0x3ff0_0000_0000_0000 && bounds.height
            <= 0x3ff0_0000_0000_0000,
{
}

/// Both lines are there in every image with pixels: the first across, the second downwards. Their
/// words spell them, and the words' boxes lie one behind the other.
pub proof fn law_words_spell_their_lines<N: Fn(PixelBox, usize, usize) -> BoundingBox>(
    normalized: N,
    img_width: usize,
    img_height: usize,
    result: Result<Seq<ParagraphView>, Seq<char>>,
)
    requires
        gives(normalized, img_width, img_height, result),
    ensures
        result is Ok <==> img_width > 0 && img_height > 0,
        result is Ok ==> {
            let across = result->Ok_0[0];
            let down = result->Ok_0[1];
            &&& result->Ok_0.len() == 2
            &&& !across.is_vertical && down.is_vertical
            &&& across.words.len() == 3 && down.words.len() == 3
            &&& across.full_text == across.words[0].text@ + across.words[1].text@
                + across.words[2].text@
            &&& down.full_text == down.words[0].text@ + down.words[1].text@ + down.words[2].text@
            &&& is_relative(across.bounds) && is_relative(down.bounds)
        },
        horizontal_words().len() == 3 && vertical_words().len() == 3,
        forall|i: int|
            0 <= i < 2 ==> {
                let a = (#[trigger] horizontal_words()[i]).1;
                let b = horizontal_words()[i + 1].1;
                a.x + a.w <= b.x && a.y == b.y && a.h == b.h
            },
        forall|i: int|
            0 <= i < 2 ==> {
                let a = (#[trigger] vertical_words()[i]).1;
                let b = vertical_words()[i + 1].1;
                a.y + a.h <= b.y && a.x == b.x && a.w == b.w
            },
{
    reveal_strlit("これは");
    reveal_strlit("横書き");
    reveal_strlit("テキストです");
    reveal_strlit("これは横書きテキストです");
    reveal_strlit("縦");
    reveal_strlit("書");
    reveal_strlit("き");
    reveal_strlit("縦書き");
    assert("これは横書きテキストです"@ =~= "これは"@ + "横書き"@ + "テキストです"@);
    assert("縦書き"@ =~= "縦"@ + "書"@ + "き"@);
    if result is Ok {
        let across = result->Ok_0[0];
        let down = result->Ok_0[1];
        assert(is_word(normalized, img_width, img_height, horizontal_words()[0], across.words[0]));
        assert(is_word(normalized, img_width, img_height, horizontal_words()[1], across.words[1]));
        assert(is_word(normalized, img_width, img_height, horizontal_words()[2], across.words[2]));
        assert(is_word(normalized, img_width, img_height, vertical_words()[0], down.words[0]));
        assert(is_word(normalized, img_width, img_height, vertical_words()[1], down.words[1]));
        assert(is_word(normalized, img_width, img_height, vertical_words()[2], down.words[2]));
    }
}

} // verus!
