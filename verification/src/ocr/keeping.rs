//! A recognition engine whose last result is kept for looking under the pointer.

use crate::ocr::hit_scan;
use crate::ocr::hit_scan::ParagraphFacts;
use crate::ocr::interface;
use crate::ocr::interface::{OcrProvider, Paragraph};
use crate::pixels::{check_rgb_buffer, RgbBufferError};
use crate::screenshot::interface::{RgbImage, RgbImageView};
use crate::text;
use crate::text::{joined, push_decimal, same_text};
use vstd::prelude::*;

verus! {

/// The name of the engine that is used unless another one is asked for.
pub const DEFAULT_PROVIDER_NAME: &'static str = "meikiocr (local)";

/// The names of the engines.
pub fn discover_providers() -> (r: Vec<&'static str>)
    ensures
        r@.len() == 1,
        r@[0]@ == DEFAULT_PROVIDER_NAME@,
{
    let mut providers: Vec<&'static str> = Vec::new();
    providers.push(DEFAULT_PROVIDER_NAME);
    providers
}

/// An engine, the names of those that there are, and the last result.
#[derive(Debug)]
pub struct OcrProcessor<B: OcrProvider> {
    pub ocr_backend: Option<B>,
    pub available_providers: Vec<&'static str>,
    pub last_ocr_result: Option<Vec<Paragraph>>,
}

/// Whether a name is in a list.
pub open spec fn is_listed(names: Seq<&'static str>, name: Seq<char>) -> bool {
    exists|i: int| 0 <= i < names.len() && (#[trigger] names[i])@ == name
}

fn is_in(names: &Vec<&'static str>, name: &str) -> (r: bool)
    ensures
        r == is_listed(names@, name@),
{
    let mut i: usize = 0;
    while i < names.len()
        invariant
            i <= names@.len(),
            forall|j: int| 0 <= j < i ==> (#[trigger] names@[j])@ != name@,
        decreases names@.len() - i,
    {
        if same_text(names[i], name) {
            assert(names@[i as int]@ == name@);
            return true;
        }
        i += 1;
    }
    false
}

/// What is said of an image with `len` bytes that do not fit its sides.
pub open spec fn image_error_text(len: int, error: RgbBufferError) -> Seq<char> {
    match error {
        RgbBufferError::TooLarge => "image dimensions are too large"@,
        RgbBufferError::Empty => "image dimensions must be greater than zero"@,
        RgbBufferError::WrongLength { expected } => "RGB image buffer has "@ + text::decimal_of(
            len as nat,
        ) + " bytes, expected "@ + text::decimal_of(expected as nat),
    }
}

/// What is said of an image whose bytes do not fit its sides.
pub open spec fn image_error(image: RgbImageView) -> Option<Seq<char>> {
    if image.width * image.height * 3 > usize::MAX {
        Some(image_error_text(0, RgbBufferError::TooLarge))
    } else if image.width == 0 || image.height == 0 {
        Some(image_error_text(0, RgbBufferError::Empty))
    } else if image.data.len() != image.width * image.height * 3 {
        Some(
            image_error_text(
                image.data.len() as int,
                RgbBufferError::WrongLength {
                    expected: (image.width * image.height * 3) as usize,
                },
            ),
        )
    } else {
        None
    }
}

/// Checks that the bytes of an image fit its sides.
pub fn check_image(image: &RgbImage) -> (r: Result<(), String>)
    ensures
        match r {
            Ok(_) => image_error(image@) is None,
            Err(message) => image_error(image@) == Some(message@),
        },
{
    let len: usize = image.data.len();
    match check_rgb_buffer(len, image.width, image.height) {
        Ok(_) => Ok(()),
        Err(RgbBufferError::TooLarge) => Err("image dimensions are too large".to_owned()),
        Err(RgbBufferError::Empty) => Err("image dimensions must be greater than zero".to_owned()),
        Err(RgbBufferError::WrongLength { expected }) => {
            let mut message: String = "RGB image buffer has ".to_owned();
            push_decimal(&mut message, len as u64);
            message.append(" bytes, expected ");
            push_decimal(&mut message, expected as u64);
            Err(message)
        },
    }
}

/// Whether starting the engine with a name can give a result: only the default one can start.
pub open spec fn can_start<B, C: Fn() -> Result<B, String>>(
    create: C,
    name: Seq<char>,
    result: Result<B, String>,
) -> bool {
    if name == DEFAULT_PROVIDER_NAME@ {
        call_ensures(create, (), result)
    } else {
        result is Err && result->Err_0@ == "Unknown OCR provider: '"@ + name + "'"@
    }
}

fn create_provider<B, C: Fn() -> Result<B, String>>(name: &str, create: &C) -> (r: Result<
    B,
    String,
>)
    requires
        call_requires(*create, ()),
    ensures
        can_start(*create, name@, r),
{
    if same_text(name, DEFAULT_PROVIDER_NAME) {
        create()
    } else {
        let mut message = joined("Unknown OCR provider: '", name);
        message.append("'");
        Err(message)
    }
}

/// The engine to begin with: the default one where it is listed, else the first.
pub open spec fn first_choice(names: Seq<&'static str>) -> Seq<char> {
    if is_listed(names, DEFAULT_PROVIDER_NAME@) {
        DEFAULT_PROVIDER_NAME@
    } else {
        names[0]@
    }
}

/// What is said of an engine that is not listed.
pub open spec fn not_listed_text(name: Seq<char>) -> Seq<char> {
    "Attempted to switch to an unknown provider: '"@ + name + "'"@
}

/// Whether an attempt to use another engine than `old_backend` can leave `new_backend` and
/// `result`.
pub open spec fn can_switch<B: OcrProvider, C: Fn() -> Result<B, String>>(
    create: C,
    names: Seq<&'static str>,
    old_backend: Option<B>,
    name: Seq<char>,
    new_backend: Option<B>,
    result: Result<(), String>,
) -> bool {
    if old_backend is Some && name == old_backend->0.title() {
        result is Ok && new_backend == old_backend
    } else if !is_listed(names, name) {
        &&& result is Err && result->Err_0@ == not_listed_text(name)
        &&& new_backend == old_backend
    } else {
        match result {
            Ok(_) => new_backend is Some && can_start(create, name, Ok(new_backend->0)),
            Err(message) => new_backend == old_backend && can_start(create, name, Err(message)),
        }
    }
}

impl<B: OcrProvider> OcrProcessor<B> {
    /// The result that is kept after an attempt to use the engine with a name.
    pub open spec fn kept_result(self, name: Seq<char>, result: Result<(), String>) -> Option<
        Vec<Paragraph>,
    > {
        if result is Err || (self.ocr_backend is Some && name == self.ocr_backend->0.title()) {
            self.last_ocr_result
        } else {
            None
        }
    }

    /// Starts an engine of those with the names in `available_providers`. `create` starts the
    /// default one.
    pub fn with_providers<C: Fn() -> Result<B, String>>(
        available_providers: Vec<&'static str>,
        create: &C,
    ) -> (r: Result<Self, String>)
        requires
            call_requires(*create, ()),
        ensures
            if available_providers@.len() == 0 {
                r is Err && r->Err_0@
                    == "No OCR providers found! The application cannot continue."@
            } else {
                ||| {
                    &&& r is Ok
                    &&& r->Ok_0.ocr_backend is Some
                    &&& can_start(
                        *create,
                        first_choice(available_providers@),
                        Ok(r->Ok_0.ocr_backend->0),
                    )
                }
                ||| exists|message: String|
                    {
                        &&& #[trigger] can_start(
                            *create,
                            first_choice(available_providers@),
                            Err(message),
                        )
                        &&& can_switch(
                            *create,
                            available_providers@,
                            None,
                            DEFAULT_PROVIDER_NAME@,
                            match r {
                                Ok(processor) => processor.ocr_backend,
                                Err(_) => None,
                            },
                            match r {
                                Ok(_) => Ok(()),
                                Err(message) => Err(message),
                            },
                        )
                    }
            },
            r is Ok ==> r->Ok_0.available_providers == available_providers
                && r->Ok_0.last_ocr_result is None,
    {
        if available_providers.len() == 0 {
            return Err("No OCR providers found! The application cannot continue.".to_owned());
        }
        let name: &'static str = if is_in(&available_providers, DEFAULT_PROVIDER_NAME) {
            DEFAULT_PROVIDER_NAME
        } else {
            available_providers[0]
        };
        let first = create_provider(name, create);
        let mut processor = OcrProcessor {
            ocr_backend: None,
            available_providers,
            last_ocr_result: None,
        };
        match first {
            Ok(provider) => {
                processor.ocr_backend = Some(provider);
                Ok(processor)
            },
            Err(message) => {
                assert(can_start(*create, first_choice(available_providers@), Err(message)));
                match processor.switch_provider(DEFAULT_PROVIDER_NAME, create) {
                    Ok(_) => Ok(processor),
                    Err(message) => Err(message),
                }
            },
        }
    }

    /// Uses another engine; the last result then goes. Nothing changes where it is not listed or
    /// does not start.
    pub fn switch_provider<C: Fn() -> Result<B, String>>(
        &mut self,
        provider_name: &str,
        create: &C,
    ) -> (r: Result<(), String>)
        requires
            call_requires(*create, ()),
        ensures
            can_switch(
                *create,
                old(self).available_providers@,
                old(self).ocr_backend,
                provider_name@,
                final(self).ocr_backend,
                r,
            ),
            final(self).available_providers == old(self).available_providers,
            final(self).last_ocr_result == old(self).kept_result(provider_name@, r),
    {
        if let Some(backend) = &self.ocr_backend {
            if same_text(provider_name, backend.name()) {
                return Ok(());
            }
        }
        if !is_in(&self.available_providers, provider_name) {
            let mut message = joined(
                "Attempted to switch to an unknown provider: '",
                provider_name,
            );
            message.append("'");
            return Err(message);
        }
        match create_provider(provider_name, create) {
            Ok(provider) => {
                self.ocr_backend = Some(provider);
                self.last_ocr_result = None;
                Ok(())
            },
            Err(message) => Err(message),
        }
    }

    /// Whether a scan of an image can take `self` to `after` and give `result`: what was found
    /// is kept, and an error changes nothing.
    pub open spec fn can_scan(
        self,
        image: RgbImageView,
        after: Self,
        result: Result<usize, String>,
    ) -> bool {
        &&& after.available_providers == self.available_providers
        &&& after.ocr_backend is Some == self.ocr_backend is Some
        &&& match self.ocr_backend {
            None => {
                &&& result is Err && result->Err_0@ == "OCR provider was not initialized"@
                &&& after.last_ocr_result == self.last_ocr_result
            },
            Some(backend) => {
                &&& after.ocr_backend->0.title() == backend.title()
                &&& match result {
                    Ok(count) => {
                        &&& after.last_ocr_result is Some
                        &&& count == after.last_ocr_result->0@.len()
                        &&& backend.can_give(
                            image,
                            Ok(interface::paragraph_views(after.last_ocr_result->0@)),
                        )
                    },
                    Err(message) => {
                        &&& after.last_ocr_result == self.last_ocr_result
                        &&& backend.can_give(image, Err(message@))
                    },
                }
            },
        }
    }

    /// Recognises the text in an image and keeps it. Returns the number of paragraphs.
    pub fn scan(&mut self, image: &RgbImage) -> (r: Result<usize, String>)
        ensures
            old(self).can_scan(image@, *final(self), r),
    {
        match &mut self.ocr_backend {
            Some(backend) => match backend.scan(image) {
                Ok(paragraphs) => {
                    let count: usize = paragraphs.len();
                    self.last_ocr_result = Some(paragraphs);
                    Ok(count)
                },
                Err(message) => Err(message),
            },
            None => Err("OCR provider was not initialized".to_owned()),
        }
    }

    /// Recognises the text in an image whose bytes fit its sides, and keeps it. Returns the
    /// number of paragraphs.
    pub fn scan_rgb(&mut self, image: &RgbImage) -> (r: Result<usize, String>)
        ensures
            match image_error(image@) {
                Some(message) => r is Err && r->Err_0@ == message && *final(self) == *old(self),
                None => old(self).can_scan(image@, *final(self), r),
            },
    {
        match check_image(image) {
            Ok(_) => self.scan(image),
            Err(message) => Err(message),
        }
    }

    /// The text under the pointer in the last result. `facts[i]` is what geometry says of the
    /// pointer and paragraph `i`.
    pub fn hit_scan(&self, facts: &Vec<ParagraphFacts>) -> (r: Option<String>)
        requires
            self.last_ocr_result is Some ==> facts@.len() == self.last_ocr_result->0@.len()
                && forall|i: int|
                0 <= i < facts@.len() ==> (#[trigger] facts@[i]).words@.len()
                    == self.last_ocr_result->0@[i].words@.len(),
        ensures
            match self.last_ocr_result {
                None => r is None,
                Some(paragraphs) => match (
                    r,
                    hit_scan::first_text_under(paragraphs@, facts@, 0),
                ) {
                    (Some(text), Some(wanted)) => text@ == wanted,
                    (None, None) => true,
                    _ => false,
                },
            },
    {
        match &self.last_ocr_result {
            Some(paragraphs) => hit_scan::hit_scan(paragraphs, facts),
            None => None,
        }
    }

    /// The name of the engine in use.
    pub fn provider_name(&self) -> (r: Option<&'static str>)
        ensures
            match (r, self.ocr_backend) {
                (Some(name), Some(backend)) => name@ == backend.title(),
                (None, None) => true,
                _ => false,
            },
    {
        match &self.ocr_backend {
            Some(backend) => Some(backend.name()),
            None => None,
        }
    }

    /// One round of the worker: recognises the text in the image that it was given, if it was
    /// given one.
    pub fn work(&mut self, image: &Option<RgbImage>) -> (r: Result<usize, String>)
        ensures
            match *image {
                None => {
                    &&& r is Err && r->Err_0@ == "OCR queue returned no image"@
                    &&& *final(self) == *old(self)
                },
                Some(image) => match image_error(image@) {
                    Some(message) => r is Err && r->Err_0@ == message && *final(self) == *old(self),
                    None => old(self).can_scan(image@, *final(self), r),
                },
            },
    {
        match image {
            Some(image) => self.scan_rgb(image),
            None => Err("OCR queue returned no image".to_owned()),
        }
    }
}

/// What the worker does after a round.
#[derive(Debug)]
pub struct AfterWork {
    /// Whether the text under the pointer is to be looked for again.
    pub trigger_hit_scan: bool,
    /// What is to be written to the log as an error.
    pub error: Option<String>,
    /// Whether the next screenshot is to be taken.
    pub schedule_screenshot: bool,
}

/// What the worker does after a round: the next screenshot is taken in automatic mode, whether
/// the round succeeded or not.
pub fn after_work(result: &Result<usize, String>, auto_scan_mode: bool) -> (r: AfterWork)
    ensures
        r.trigger_hit_scan == (*result is Ok),
        r.schedule_screenshot == auto_scan_mode,
        match (r.error, *result) {
            (Some(text), Err(error)) => text@
                == "An unexpected error occurred in the ocr loop. Continuing: "@ + error@,
            (None, Ok(_)) => true,
            _ => false,
        },
{
    match result {
        Ok(_) => AfterWork {
            trigger_hit_scan: true,
            error: None,
            schedule_screenshot: auto_scan_mode,
        },
        Err(error) => AfterWork {
            trigger_hit_scan: false,
            error: Some(
                joined(
                    "An unexpected error occurred in the ocr loop. Continuing: ",
                    error.as_str(),
                ),
            ),
            schedule_screenshot: auto_scan_mode,
        },
    }
}

/// An image is in order where both sides have pixels and there are three bytes for each pixel.
pub proof fn law_images_have_three_bytes_per_pixel(image: RgbImageView)
    requires
        image.data.len() <= usize::MAX,
    ensures
        image_error(image) is None <==> image.width >= 1 && image.height >= 1 && image.data.len()
            == 3 * (image.width * image.height),
        (image.width == 0 || image.height == 0) ==> image_error(image) == Some(
            "image dimensions must be greater than zero"@,
        ),
{
    if image.width == 0 || image.height == 0 {
        assert(image.width * image.height == 0) by (nonlinear_arith)
            requires
                image.width == 0 || image.height == 0,
        ;
    }
}

/// Another engine is used only where it is listed, is the one that can be started, and was
/// started; the engine in use stays where it is asked for itself and after every failure.
pub proof fn law_engines_are_switched_or_stay<B: OcrProvider, C: Fn() -> Result<B, String>>(
    create: C,
    names: Seq<&'static str>,
    before: Option<B>,
    name: Seq<char>,
    after: Option<B>,
    result: Result<(), String>,
)
    requires
        can_switch(create, names, before, name, after, result),
    ensures
        result is Err ==> after == before,
        before is Some && before->0.title() == name ==> result is Ok && after == before,
        !(before is Some && before->0.title() == name) && (forall|i: int|
            0 <= i < names.len() ==> (#[trigger] names[i])@ != name) ==> result is Err,
        !(before is Some && before->0.title() == name) && name != "meikiocr (local)"@
            ==> result is Err,
        !(before is Some && before->0.title() == name) && result is Ok ==> {
            &&& name == "meikiocr (local)"@
            &&& after is Some
            &&& call_ensures(create, (), Ok(after->0))
            &&& exists|i: int| 0 <= i < names.len() && (#[trigger] names[i])@ == name
        },
{
}

/// The engine to begin with is the default one if it is anywhere in the list, and else the first.
pub proof fn law_the_default_engine_comes_first(names: Seq<&'static str>)
    requires
        names.len() > 0,
    ensures
        (exists|i: int| 0 <= i < names.len() && (#[trigger] names[i])@ == "meikiocr (local)"@)
            ==> first_choice(names) == "meikiocr (local)"@,
        (forall|i: int| 0 <= i < names.len() ==> (#[trigger] names[i])@ != "meikiocr (local)"@)
            ==> first_choice(names) == names[0]@,
{
}

/// What a scan found is kept and counted; a scan that failed leaves what was kept before.
pub proof fn law_scans_that_fail_keep_the_last_result<B: OcrProvider>(
    before: OcrProcessor<B>,
    image: RgbImageView,
    after: OcrProcessor<B>,
    result: Result<usize, String>,
)
    requires
        before.can_scan(image, after, result),
    ensures
        result is Err ==> after.last_ocr_result == before.last_ocr_result,
        result is Ok ==> after.last_ocr_result is Some && after.last_ocr_result->0@.len()
            == result->Ok_0 && before.ocr_backend is Some && before.ocr_backend->0.can_give(
            image,
            Ok(interface::paragraph_views(after.last_ocr_result->0@)),
        ),
        before.ocr_backend is None ==> result is Err && after.ocr_backend is None,
        after.available_providers == before.available_providers,
{
}

/// The last result goes with its engine: it is kept exactly as long as the engine is, so a result
/// of one engine is never taken for one of another.
pub proof fn law_results_go_with_their_engine<B: OcrProvider>(
    before: OcrProcessor<B>,
    name: Seq<char>,
    result: Result<(), String>,
)
    ensures
        result is Err ==> before.kept_result(name, result) == before.last_ocr_result,
        before.ocr_backend is Some && before.ocr_backend->0.title() == name ==> before.kept_result(
            name,
            result,
        ) == before.last_ocr_result,
        result is Ok && !(before.ocr_backend is Some && before.ocr_backend->0.title() == name)
            ==> before.kept_result(name, result) is None,
{
}

} // verus!
