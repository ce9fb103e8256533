//! The font of the popup.

use vstd::prelude::*;

verus! {

/// Fonts with Japanese characters, the preferred ones first.
pub open spec fn font_families() -> Seq<Seq<char>> {
    seq![
        "Noto Sans CJK JP"@,
        "Noto Sans JP"@,
        "Yu Gothic UI"@,
        "Yu Gothic"@,
        "Hiragino Sans"@,
        "Meiryo"@,
        "IPA Gothic"@,
    ]
}

/// Fonts with Japanese characters, the preferred ones first.
pub fn font_family_names() -> (r: Vec<&'static str>)
    ensures
        r@.len() == font_families().len(),
        forall|i: int| 0 <= i < r@.len() ==> (#[trigger] r@[i])@ == font_families()[i],
{
    let mut names: Vec<&'static str> = Vec::new();
    names.push("Noto Sans CJK JP");
    names.push("Noto Sans JP");
    names.push("Yu Gothic UI");
    names.push("Yu Gothic");
    names.push("Hiragino Sans");
    names.push("Meiryo");
    names.push("IPA Gothic");
    names
}

/// Whether `answer` was given for a font of this name.
pub open spec fn said<F: Fn(&'static str) -> bool>(is_installed: F, name: Seq<char>, answer: bool) -> bool {
    exists|family: &'static str| family@ == name && #[trigger] call_ensures(
        is_installed,
        (family,),
        answer,
    )
}

/// The first of the fonts that is installed; an empty name, for the usual font of the system,
/// where none is.
pub fn preferred_font_family<F: Fn(&'static str) -> bool>(is_installed: &F) -> (r: &'static str)
    requires
        forall|family: &'static str| #[trigger] call_requires(*is_installed, (family,)),
    ensures
        ({
            ||| exists|k: int|
                {
                    &&& 0 <= k < font_families().len()
                    &&& #[trigger] font_families()[k] == r@
                    &&& said(*is_installed, r@, true)
                    &&& forall|j: int|
                        0 <= j < k ==> said(*is_installed, #[trigger] font_families()[j], false)
                }
            ||| {
                &&& r@ == ""@
                &&& forall|j: int|
                    0 <= j < font_families().len() ==> said(
                        *is_installed,
                        #[trigger] font_families()[j],
                        false,
                    )
            }
        }),
{
    let names = font_family_names();
    let mut i: usize = 0;
    while i < names.len()
        invariant
            i <= names@.len(),
            names@.len() == font_families().len(),
            forall|j: int| 0 <= j < names@.len() ==> (#[trigger] names@[j])@ == font_families()[j],
            forall|family: &'static str| #[trigger] call_requires(*is_installed, (family,)),
            forall|j: int|
                0 <= j < i ==> said(*is_installed, #[trigger] font_families()[j], false),
        decreases names@.len() - i,
    {
        let family: &'static str = names[i];
        assert(family@ == font_families()[i as int]);
        if is_installed(family) {
            assert(said(*is_installed, family@, true));
            return family;
        }
        assert(said(*is_installed, family@, false));
        i += 1;
    }
    ""
}

} // verus!
