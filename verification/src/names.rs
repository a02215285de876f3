//! Spelling Chinese names in upper-case Latin letters.

use crate::text;
use crate::text::Blank;
use vstd::prelude::*;

verus! {

/// The pronunciation without tone marks that `pinyin` gives for a character, if it has one.
pub uninterp spec fn plain_pinyin(c: char) -> Option<Seq<char>>;

/// Calls `ToPinyin::to_pinyin` of `pinyin` and, where it has a result, `Pinyin::plain` on it. Both
/// look the character up in fixed tables, so the result is a function of the character.
#[verifier::external_body]
pub(crate) fn look_up_pinyin(c: char) -> (r: Option<String>)
    ensures
        text::opt(r) == plain_pinyin(c),
{
    pinyin::ToPinyin::to_pinyin(&c).map(|found| found.plain().to_string())
}

/// The upper-case form that `char::to_uppercase` gives for a character.
pub uninterp spec fn upper_char(c: char) -> Seq<char>;

/// Calls `char::to_uppercase`, which maps a character by the Unicode tables to one or more
/// characters.
#[verifier::external_body]
pub(crate) fn to_upper_char(c: char) -> (r: String)
    ensures
        r@ == upper_char(c),
{
    c.to_uppercase().collect()
}

/// The upper-case form that `str::to_uppercase` gives for a text.
pub uninterp spec fn upper_text(s: Seq<char>) -> Seq<char>;

/// Calls `str::to_uppercase`, which maps a text by the Unicode tables.
#[verifier::external_body]
pub(crate) fn to_upper_text(s: &str) -> (r: String)
    ensures
        r@ == upper_text(s@),
{
    s.to_uppercase()
}

/// The lower-case form that `str::to_lowercase` gives for a text.
pub uninterp spec fn lower_text(s: Seq<char>) -> Seq<char>;

/// Calls `str::to_lowercase`, which maps a text by the Unicode tables.
#[verifier::external_body]
pub(crate) fn to_lower_text(s: &str) -> (r: String)
    ensures
        r@ == lower_text(s@),
{
    s.to_lowercase()
}

/// What a character contributes to a name, given its pronunciation and its upper-case form:
/// blanks nothing, others their pronunciation, else their upper-case form.
pub open spec fn spelling(c: char, pinyin: Option<Seq<char>>, upper: Seq<char>) -> Seq<char> {
    if text::blank(Blank::Unicode, c) {
        seq![]
    } else {
        match pinyin {
            Some(sound) => sound,
            None => upper,
        }
    }
}

/// Chooses what a character contributes to a name.
pub fn choose_spelling(c: char, pinyin: Option<String>, upper: String) -> (r: String)
    ensures
        r@ == spelling(c, text::opt(pinyin), upper@),
{
    if text::is_blank(Blank::Unicode, c) {
        let r: String = String::new();
        assert(r@ =~= seq![]);
        r
    } else {
        match pinyin {
            Some(sound) => sound,
            None => upper,
        }
    }
}

/// What a character contributes to a name.
pub open spec fn spelled(c: char) -> Seq<char> {
    spelling(c, plain_pinyin(c), upper_char(c))
}

/// Spells a character.
pub fn spell_char(c: char) -> (r: String)
    ensures
        r@ == spelled(c),
{
    choose_spelling(c, look_up_pinyin(c), to_upper_char(c))
}

/// The spelling of a text, character by character.
pub open spec fn speller() -> spec_fn(int, char) -> Seq<char> {
    |i: int, c: char| spelled(c)
}

/// The spelling of a name: that of its characters, in upper case.
pub open spec fn upper_pinyin(value: Seq<char>) -> Seq<char> {
    upper_text(text::flat_collect(value, speller()))
}

/// Spells a name in upper-case letters.
pub fn to_upper_pinyin(value: &str) -> (r: String)
    ensures
        r@ == upper_pinyin(value@),
{
    let cs: Vec<char> = text::chars_of(value);
    let ghost f = speller();
    let mut out: String = String::new();
    assert(cs@.take(0).len() == 0);
    assert(out@ =~= text::flat_collect(cs@.take(0), f));
    for i in 0..cs.len()
        invariant
            f == speller(),
            out@ == text::flat_collect(cs@.take(i as int), f),
    {
        proof {
            text::lemma_flat_collect_step(cs@, f, i as int);
        }
        let part: String = spell_char(cs[i]);
        out.append(part.as_str());
    }
    assert(cs@.take(cs@.len() as int) == value@);
    to_upper_text(out.as_str())
}

/// Blanks are left out; a character with a sound is spelled by it, and any other by its upper case.
pub proof fn characters_are_spelled_by_their_sound(c: char, sound: Seq<char>, upper: Seq<char>)
    ensures
        text::blank(Blank::Unicode, c) ==> spelling(c, Some(sound), upper).len() == 0 && spelling(
            c,
            None,
            upper,
        ).len() == 0,
        !text::blank(Blank::Unicode, c) ==> spelling(c, Some(sound), upper) == sound && spelling(
            c,
            None,
            upper,
        ) == upper,
{
}

/// A longer name is spelled by spelling its characters one behind the other.
pub proof fn names_are_spelled_character_by_character(value: Seq<char>, c: char)
    ensures
        text::flat_collect(value.push(c), speller()) == text::flat_collect(value, speller())
            + spelling(c, plain_pinyin(c), upper_char(c)),
        upper_pinyin(value) == upper_text(text::flat_collect(value, speller())),
{
    assert(value.push(c).drop_last() =~= value);
}

} // verus!
