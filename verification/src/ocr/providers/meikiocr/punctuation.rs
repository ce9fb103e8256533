//! Detection of punctuation characters.

use crate::text::same_text;
use vstd::prelude::*;

verus! {

/// The abbreviation of the Unicode general category of a character.
pub uninterp spec fn general_category(c: char) -> Seq<char>;

/// Asks `unicode_general_category::get_general_category` for the category of `c` and returns
/// its `abbreviation`. The result depends on the character alone.
#[verifier::external_body]
fn category_of(c: char) -> (r: String)
    ensures
        r@ == general_category(c),
{
    unicode_general_category::get_general_category(c).abbreviation().to_owned()
}

/// Whether a general category is one of punctuation: connector, dash, close, final, initial,
/// other or open.
pub open spec fn names_punctuation(category: Seq<char>) -> bool {
    ||| category == "Pc"@
    ||| category == "Pd"@
    ||| category == "Pe"@
    ||| category == "Pf"@
    ||| category == "Pi"@
    ||| category == "Po"@
    ||| category == "Ps"@
}

/// Whether `c` is a punctuation character.
pub open spec fn punctuation(c: char) -> bool {
    names_punctuation(general_category(c))
}

/// Whether a general category, given by its abbreviation, is one of punctuation.
pub fn is_punctuation_category(category: &str) -> (r: bool)
    ensures
        r == names_punctuation(category@),
{
    same_text(category, "Pc") || same_text(category, "Pd") || same_text(category, "Pe")
        || same_text(category, "Pf") || same_text(category, "Pi") || same_text(category, "Po")
        || same_text(category, "Ps")
}

/// Whether `character` is a punctuation character.
pub fn is_punctuation(character: char) -> (r: bool)
    ensures
        r == punctuation(character),
{
    is_punctuation_category(category_of(character).as_str())
}

/// The categories of punctuation are those with a `P` and one of seven letters.
pub proof fn law_punctuation_is_told_by_two_letters(category: Seq<char>)
    ensures
        names_punctuation(category) <==> category.len() == 2 && category[0] == 'P' && (category[1]
            == 'c' || category[1] == 'd' || category[1] == 'e' || category[1] == 'f' || category[1]
            == 'i' || category[1] == 'o' || category[1] == 's'),
{
    reveal_strlit("Pc");
    reveal_strlit("Pd");
    reveal_strlit("Pe");
    reveal_strlit("Pf");
    reveal_strlit("Pi");
    reveal_strlit("Po");
    reveal_strlit("Ps");
    if category.len() == 2 && category[0] == 'P' {
        assert(category =~= seq!['P', category[1]]);
        assert("Pc"@ =~= seq!['P', 'c']);
        assert("Pd"@ =~= seq!['P', 'd']);
        assert("Pe"@ =~= seq!['P', 'e']);
        assert("Pf"@ =~= seq!['P', 'f']);
        assert("Pi"@ =~= seq!['P', 'i']);
        assert("Po"@ =~= seq!['P', 'o']);
        assert("Ps"@ =~= seq!['P', 's']);
    }
}

} // verus!
