//! The choice of a recognition engine.

use crate::ocr::interface;
use crate::ocr::interface::{OcrProvider, Paragraph};
use crate::screenshot::interface::RgbImage;
use crate::text::{joined, same_text};
use vstd::prelude::*;

verus! {

/// The engine that every system has.
pub const DEFAULT_PROVIDER_ID: &'static str = "meikiocr";

/// The engine of macOS.
pub const APPLE_VISION_PROVIDER_ID: &'static str = "apple_vision";

/// An engine: what it is called in settings, and the name that is shown.
#[derive(Clone, Copy, Debug, PartialEq, Eq)]
pub struct OcrProviderInfo {
    pub id: &'static str,
    pub name: &'static str,
}

/// The engines.
#[derive(Clone, Copy, Debug, PartialEq, Eq, Structural)]
pub enum OcrProviderKind {
    MeikiOcr,
    AppleVision,
}

impl OcrProviderKind {
    /// What the engine is called in settings.
    pub open spec fn id_text(self) -> Seq<char> {
        match self {
            OcrProviderKind::MeikiOcr => DEFAULT_PROVIDER_ID@,
            OcrProviderKind::AppleVision => APPLE_VISION_PROVIDER_ID@,
        }
    }

    /// The name that is shown.
    pub open spec fn name_text(self) -> Seq<char> {
        match self {
            OcrProviderKind::MeikiOcr => "meikiocr (local)"@,
            OcrProviderKind::AppleVision => "Apple Vision (macOS)"@,
        }
    }

    /// What the engine is called in settings, and the name that is shown.
    pub fn info(&self) -> (r: OcrProviderInfo)
        ensures
            r.id@ == self.id_text(),
            r.name@ == self.name_text(),
    {
        match self {
            OcrProviderKind::MeikiOcr => OcrProviderInfo {
                id: DEFAULT_PROVIDER_ID,
                name: "meikiocr (local)",
            },
            OcrProviderKind::AppleVision => OcrProviderInfo {
                id: APPLE_VISION_PROVIDER_ID,
                name: "Apple Vision (macOS)",
            },
        }
    }
}

/// The engines of a system.
pub open spec fn kinds(on_macos: bool) -> Seq<OcrProviderKind> {
    if on_macos {
        seq![OcrProviderKind::MeikiOcr, OcrProviderKind::AppleVision]
    } else {
        seq![OcrProviderKind::MeikiOcr]
    }
}

/// The engines of a system.
pub fn available_providers(on_macos: bool) -> (r: Vec<OcrProviderInfo>)
    ensures
        r@.len() == kinds(on_macos).len(),
        forall|i: int|
            0 <= i < r@.len() ==> (#[trigger] r@[i]).id@ == kinds(on_macos)[i].id_text()
                && r@[i].name@ == kinds(on_macos)[i].name_text(),
{
    let mut providers: Vec<OcrProviderInfo> = Vec::new();
    providers.push(OcrProviderKind::MeikiOcr.info());
    if on_macos {
        providers.push(OcrProviderKind::AppleVision.info());
    }
    providers
}

/// No two engines are called the same, and none is called what is shown.
pub proof fn law_engines_are_told_apart(a: OcrProviderKind, b: OcrProviderKind)
    ensures
        a.id_text() == b.id_text() ==> a == b,
        a.id_text() != a.name_text(),
{
    reveal_strlit("meikiocr");
    reveal_strlit("apple_vision");
    reveal_strlit("meikiocr (local)");
    reveal_strlit("Apple Vision (macOS)");
    assert("meikiocr"@.len() != "apple_vision"@.len());
    assert("meikiocr"@.len() != "meikiocr (local)"@.len());
    assert("apple_vision"@.len() != "Apple Vision (macOS)"@.len());
}

/// The engine of a system that is called `id`.
pub open spec fn kind_of(on_macos: bool, id: Seq<char>) -> Option<OcrProviderKind> {
    if id == DEFAULT_PROVIDER_ID@ {
        Some(OcrProviderKind::MeikiOcr)
    } else if on_macos && id == APPLE_VISION_PROVIDER_ID@ {
        Some(OcrProviderKind::AppleVision)
    } else {
        None
    }
}

/// The engine of a system that is called `provider_id`.
pub fn provider_kind(on_macos: bool, provider_id: &str) -> (r: Option<OcrProviderKind>)
    ensures
        r == kind_of(on_macos, provider_id@),
{
    if same_text(provider_id, DEFAULT_PROVIDER_ID) {
        Some(OcrProviderKind::MeikiOcr)
    } else if on_macos && same_text(provider_id, APPLE_VISION_PROVIDER_ID) {
        Some(OcrProviderKind::AppleVision)
    } else {
        None
    }
}

/// What is said of an engine that is not there.
pub open spec fn unknown_provider_text(id: Seq<char>) -> Seq<char> {
    "Unknown OCR provider: '"@ + id + "'"@
}

/// The engine to start with where `id` is asked for: the default one where that is not there.
pub open spec fn selected_kind(on_macos: bool, id: Option<Seq<char>>) -> OcrProviderKind {
    match id {
        Some(id) => match kind_of(on_macos, id) {
            Some(kind) => kind,
            None => OcrProviderKind::MeikiOcr,
        },
        None => OcrProviderKind::MeikiOcr,
    }
}

/// Whether starting with `kind` can give an engine or a message: the engine itself or, where it
/// does not start and is not the default, the default one.
pub open spec fn starts_with<B, C: Fn(OcrProviderKind) -> Result<B, String>>(
    create: C,
    kind: OcrProviderKind,
    result: Result<(OcrProviderKind, B), String>,
) -> bool {
    ||| match result {
        Ok((started, backend)) => started == kind && call_ensures(create, (kind,), Ok(backend)),
        Err(message) => kind == OcrProviderKind::MeikiOcr && call_ensures(
            create,
            (kind,),
            Err(message),
        ),
    }
    ||| {
        &&& kind != OcrProviderKind::MeikiOcr
        &&& exists|message: String| #[trigger] call_ensures(create, (kind,), Err(message))
        &&& match result {
            Ok((started, backend)) => started == OcrProviderKind::MeikiOcr && call_ensures(
                create,
                (OcrProviderKind::MeikiOcr,),
                Ok(backend),
            ),
            Err(message) => call_ensures(create, (OcrProviderKind::MeikiOcr,), Err(message)),
        }
    }
}

/// Starts an engine or, where that fails, the default one. `create` starts an engine.
pub fn create_with_fallback<B, C: Fn(OcrProviderKind) -> Result<B, String>>(
    kind: OcrProviderKind,
    create: &C,
) -> (r: Result<(OcrProviderKind, B), String>)
    requires
        forall|kind: OcrProviderKind| #[trigger] call_requires(*create, (kind,)),
    ensures
        starts_with(*create, kind, r),
{
    match create(kind) {
        Ok(backend) => Ok((kind, backend)),
        Err(message) => {
            if kind != OcrProviderKind::MeikiOcr {
                assert(call_ensures(*create, (kind,), Err(message)));
                match create(OcrProviderKind::MeikiOcr) {
                    Ok(backend) => Ok((OcrProviderKind::MeikiOcr, backend)),
                    Err(message) => Err(message),
                }
            } else {
                Err(message)
            }
        },
    }
}

/// The engine in use.
#[derive(Debug)]
pub struct OcrProcessor<B: OcrProvider> {
    pub ocr_backend: B,
    pub active: OcrProviderKind,
}

/// Whether asking for the engine that is called `id` takes a processor from `before` to `after`
/// and gives `result`.
pub open spec fn is_switched<B: OcrProvider, C: FnOnce(OcrProviderKind) -> Result<B, String>>(
    before: OcrProcessor<B>,
    on_macos: bool,
    id: Seq<char>,
    create: C,
    after: OcrProcessor<B>,
    result: Result<bool, String>,
) -> bool {
    if id == before.active.id_text() {
        result == Ok::<bool, String>(false) && after == before
    } else {
        match kind_of(on_macos, id) {
            None => {
                &&& result is Err && result->Err_0@ == unknown_provider_text(id)
                &&& after == before
            },
            Some(kind) => match result {
                Ok(switched) => {
                    &&& switched
                    &&& after.active == kind
                    &&& call_ensures(create, (kind,), Ok(after.ocr_backend))
                },
                Err(message) => {
                    &&& after == before
                    &&& call_ensures(create, (kind,), Err(message))
                },
            },
        }
    }
}

impl<B: OcrProvider> OcrProcessor<B> {
    /// Starts the engine that is asked for, or the default one where it is not there or does not
    /// start. `create` starts an engine.
    pub fn new_with_provider<C: Fn(OcrProviderKind) -> Result<B, String>>(
        on_macos: bool,
        provider_id: Option<&str>,
        create: &C,
    ) -> (r: Result<Self, String>)
        requires
            forall|kind: OcrProviderKind| #[trigger] call_requires(*create, (kind,)),
        ensures
            starts_with(
                *create,
                selected_kind(
                    on_macos,
                    match provider_id {
                        Some(id) => Some(id@),
                        None => None,
                    },
                ),
                match r {
                    Ok(processor) => Ok((processor.active, processor.ocr_backend)),
                    Err(message) => Err(message),
                },
            ),
    {
        let kind = match provider_id {
            Some(id) => match provider_kind(on_macos, id) {
                Some(kind) => kind,
                None => OcrProviderKind::MeikiOcr,
            },
            None => OcrProviderKind::MeikiOcr,
        };
        match create_with_fallback(kind, create) {
            Ok((active, ocr_backend)) => Ok(OcrProcessor { ocr_backend, active }),
            Err(message) => Err(message),
        }
    }

    /// The text in an image.
    pub fn scan(&mut self, image: &RgbImage) -> (r: Result<Vec<Paragraph>, String>)
        ensures
            old(self).ocr_backend.can_give(image@, interface::scan_view(r)),
            final(self).active == old(self).active,
            final(self).ocr_backend.title() == old(self).ocr_backend.title(),
    {
        self.ocr_backend.scan(image)
    }

    /// What the engine in use is called.
    pub fn active_provider_id(&self) -> (r: &'static str)
        ensures
            r@ == self.active.id_text(),
    {
        self.active.info().id
    }

    /// Uses another engine. Returns whether that was another one than before. Nothing changes
    /// where it is not there or does not start. `create` starts an engine.
    pub fn switch_provider<C: FnOnce(OcrProviderKind) -> Result<B, String>>(
        &mut self,
        on_macos: bool,
        provider_id: &str,
        create: C,
    ) -> (r: Result<bool, String>)
        requires
            forall|kind: OcrProviderKind| #[trigger] call_requires(create, (kind,)),
        ensures
            is_switched(*old(self), on_macos, provider_id@, create, *final(self), r),
    {
        if same_text(provider_id, self.active_provider_id()) {
            return Ok(false);
        }
        match provider_kind(on_macos, provider_id) {
            Some(kind) => match create(kind) {
                Ok(backend) => {
                    self.ocr_backend = backend;
                    self.active = kind;
                    Ok(true)
                },
                Err(message) => Err(message),
            },
            None => {
                let mut message = joined("Unknown OCR provider: '", provider_id);
                message.append("'");
                Err(message)
            },
        }
    }
}

/// The engines of a system are told by what they are called in settings: an engine is found
/// exactly where the system has it.
pub proof fn law_engines_are_found_by_their_names(on_macos: bool, id: Seq<char>)
    ensures
        id == "meikiocr"@ ==> kind_of(on_macos, id) == Some(OcrProviderKind::MeikiOcr),
        id == "apple_vision"@ ==> kind_of(on_macos, id) == (if on_macos {
            Some(OcrProviderKind::AppleVision)
        } else {
            None
        }),
        id != "meikiocr"@ && id != "apple_vision"@ ==> kind_of(on_macos, id) is None,
        kind_of(on_macos, id) is Some ==> kind_of(on_macos, id)->0.id_text() == id && kinds(
            on_macos,
        ).contains(kind_of(on_macos, id)->0),
        selected_kind(on_macos, None) == OcrProviderKind::MeikiOcr,
        selected_kind(on_macos, Some(id)) == (if on_macos && id == "apple_vision"@ {
            OcrProviderKind::AppleVision
        } else {
            OcrProviderKind::MeikiOcr
        }),
        kinds(on_macos)[0] == OcrProviderKind::MeikiOcr,
        on_macos ==> kinds(on_macos).len() == 2 && kinds(on_macos)[1]
            == OcrProviderKind::AppleVision,
        !on_macos ==> kinds(on_macos).len() == 1,
{
    reveal_strlit("meikiocr");
    reveal_strlit("apple_vision");
    assert("meikiocr"@.len() != "apple_vision"@.len());
    assert(kinds(on_macos)[0] == OcrProviderKind::MeikiOcr);
    if on_macos {
        assert(kinds(on_macos)[1] == OcrProviderKind::AppleVision);
    }
}

/// An engine that was started is the one that was asked for or, where that failed, the default
/// one; there is none only where the default one failed too.
pub proof fn law_the_default_engine_stands_in<B, C: Fn(OcrProviderKind) -> Result<B, String>>(
    create: C,
    kind: OcrProviderKind,
    result: Result<(OcrProviderKind, B), String>,
)
    requires
        starts_with(create, kind, result),
    ensures
        match result {
            Ok((started, backend)) => {
                &&& call_ensures(create, (started,), Ok(backend))
                &&& started == kind || started == OcrProviderKind::MeikiOcr
                &&& started != kind ==> exists|message: String| #[trigger]
                    call_ensures(create, (kind,), Err(message))
            },
            Err(message) => {
                &&& call_ensures(create, (OcrProviderKind::MeikiOcr,), Err(message))
                &&& exists|failure: String| #[trigger] call_ensures(create, (kind,), Err(failure))
            },
        },
{
    if result is Err {
        let message = result->Err_0;
        if kind == OcrProviderKind::MeikiOcr {
            assert(call_ensures(create, (kind,), Err(message)));
        }
    }
}

/// After a switch that succeeded the engine in use is called what was asked for, and asking for
/// it again changes nothing; after one that failed everything is as before.
pub proof fn law_engines_are_switched_once<
    B: OcrProvider,
    C: FnOnce(OcrProviderKind) -> Result<B, String>,
    D: FnOnce(OcrProviderKind) -> Result<B, String>,
>(
    processors: (OcrProcessor<B>, OcrProcessor<B>, OcrProcessor<B>),
    on_macos: bool,
    id: Seq<char>,
    create: C,
    create_again: D,
    results: (Result<bool, String>, Result<bool, String>),
)
    requires
        is_switched(processors.0, on_macos, id, create, processors.1, results.0),
        is_switched(processors.1, on_macos, id, create_again, processors.2, results.1),
    ensures
        results.0 is Ok ==> processors.1.active.id_text() == id && results.1 == Ok::<bool, String>(
            false,
        ) && processors.2 == processors.1,
        results.0 is Ok ==> (results.0->Ok_0 <==> processors.0.active.id_text() != id),
        results.0 is Err ==> processors.1 == processors.0,
        results.0 is Ok && results.0->Ok_0 ==> call_ensures(
            create,
            (processors.1.active,),
            Ok(processors.1.ocr_backend),
        ),
        id != "meikiocr"@ && id != "apple_vision"@ ==> results.0 is Err,
        id == "apple_vision"@ && !on_macos && processors.0.active == OcrProviderKind::MeikiOcr
            ==> results.0 is Err,
{
    law_engines_are_found_by_their_names(on_macos, id);
    reveal_strlit("meikiocr");
    reveal_strlit("apple_vision");
    assert("meikiocr"@.len() != "apple_vision"@.len());
}

} // verus!
