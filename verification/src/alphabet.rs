//! Character classes of the Cyrillic rewrite rules, the case fold used on
//! input words, and the predicates that the proved guarantees speak of.

use vstd::prelude::*;

verus! {

/// A character class that a rewrite rule may refer to. Each class is a fixed
/// set of Cyrillic letters; `letters_contain` gives its membership predicate.
#[derive(Clone, Copy, Debug)]
pub enum Letters {
    /// The two silent letters: hard sign and soft sign.
    Signs,
    /// The uppercase Cyrillic range from А to Я.
    UpperCyrillic,
    /// First letters of the iotated digraphs: Й and И.
    Glides,
    /// Second letters of the iotated digraphs: О and Е.
    IotaTails,
    /// Vowels folded to А: О, Ы and Я.
    AFold,
    /// Vowels folded to И: Е, Ё and Э.
    IFold,
    /// The vowel folded to У: Ю.
    UFold,
    /// The consonants that trigger devoicing of a preceding voiced consonant.
    Noisy,
    /// The Ukrainian letters І and Ї.
    UkrainianI,
    /// First letters of the affricate clusters: Т and Д.
    Dentals,
    /// Second letter of the affricate clusters: С.
    EssOnly,
}

/// Membership of a character in a character class.
pub open spec fn letters_contain(ls: Letters, c: char) -> bool {
    match ls {
        Letters::Signs => c == 'Ъ' || c == 'Ь',
        Letters::UpperCyrillic => 0x410 <= c as u32 && c as u32 <= 0x42F,
        Letters::Glides => c == 'Й' || c == 'И',
        Letters::IotaTails => c == 'О' || c == 'Е',
        Letters::AFold => c == 'О' || c == 'Ы' || c == 'Я',
        Letters::IFold => c == 'Е' || c == 'Ё' || c == 'Э',
        Letters::UFold => c == 'Ю',
        Letters::Noisy => c == 'Б' || c == 'В' || c == 'Г' || c == 'Д' || c == 'Ж' || c == 'З'
            || c == 'Й' || c == 'К' || c == 'П' || c == 'С' || c == 'Т' || c == 'Ф' || c == 'Х'
            || c == 'Ц' || c == 'Ч' || c == 'Ш' || c == 'Щ',
        Letters::UkrainianI => c == 'І' || c == 'Ї',
        Letters::Dentals => c == 'Т' || c == 'Д',
        Letters::EssOnly => c == 'С',
    }
}

/// Decides membership of a character in a character class.
pub fn contains_letter(ls: Letters, c: char) -> (r: bool)
    ensures
        r == letters_contain(ls, c),
{
    match ls {
        Letters::Signs => c == 'Ъ' || c == 'Ь',
        Letters::UpperCyrillic => {
            let u = c as u32;
            0x410 <= u && u <= 0x42F
        },
        Letters::Glides => c == 'Й' || c == 'И',
        Letters::IotaTails => c == 'О' || c == 'Е',
        Letters::AFold => c == 'О' || c == 'Ы' || c == 'Я',
        Letters::IFold => c == 'Е' || c == 'Ё' || c == 'Э',
        Letters::UFold => c == 'Ю',
        Letters::Noisy => c == 'Б' || c == 'В' || c == 'Г' || c == 'Д' || c == 'Ж' || c == 'З'
            || c == 'Й' || c == 'К' || c == 'П' || c == 'С' || c == 'Т' || c == 'Ф' || c == 'Х'
            || c == 'Ц' || c == 'Ч' || c == 'Ш' || c == 'Щ',
        Letters::UkrainianI => c == 'І' || c == 'Ї',
        Letters::Dentals => c == 'Т' || c == 'Д',
        Letters::EssOnly => c == 'С',
    }
}

/// The uppercase form of a character: a locale-agnostic case fold over the
/// Cyrillic letters (including Ё and the Ukrainian І and Ї). Characters
/// outside that range are returned unchanged; the stripping rule deletes
/// them later in the pipeline.
pub open spec fn upper_char(c: char) -> char {
    match c {
        'а' => 'А',
        'б' => 'Б',
        'в' => 'В',
        'г' => 'Г',
        'д' => 'Д',
        'е' => 'Е',
        'ж' => 'Ж',
        'з' => 'З',
        'и' => 'И',
        'й' => 'Й',
        'к' => 'К',
        'л' => 'Л',
        'м' => 'М',
        'н' => 'Н',
        'о' => 'О',
        'п' => 'П',
        'р' => 'Р',
        'с' => 'С',
        'т' => 'Т',
        'у' => 'У',
        'ф' => 'Ф',
        'х' => 'Х',
        'ц' => 'Ц',
        'ч' => 'Ч',
        'ш' => 'Ш',
        'щ' => 'Щ',
        'ъ' => 'Ъ',
        'ы' => 'Ы',
        'ь' => 'Ь',
        'э' => 'Э',
        'ю' => 'Ю',
        'я' => 'Я',
        'ё' => 'Ё',
        'і' => 'І',
        'ї' => 'Ї',
        _ => c,
    }
}

/// Uppercases one character, as `upper_char` specifies.
pub fn to_upper_char(c: char) -> (r: char)
    ensures
        r == upper_char(c),
{
    match c {
        'а' => 'А',
        'б' => 'Б',
        'в' => 'В',
        'г' => 'Г',
        'д' => 'Д',
        'е' => 'Е',
        'ж' => 'Ж',
        'з' => 'З',
        'и' => 'И',
        'й' => 'Й',
        'к' => 'К',
        'л' => 'Л',
        'м' => 'М',
        'н' => 'Н',
        'о' => 'О',
        'п' => 'П',
        'р' => 'Р',
        'с' => 'С',
        'т' => 'Т',
        'у' => 'У',
        'ф' => 'Ф',
        'х' => 'Х',
        'ц' => 'Ц',
        'ч' => 'Ч',
        'ш' => 'Ш',
        'щ' => 'Щ',
        'ъ' => 'Ъ',
        'ы' => 'Ы',
        'ь' => 'Ь',
        'э' => 'Э',
        'ю' => 'Ю',
        'я' => 'Я',
        'ё' => 'Ё',
        'і' => 'І',
        'ї' => 'Ї',
        _ => c,
    }
}

/// The uppercase form of a whole word.
pub open spec fn upper_word(s: Seq<char>) -> Seq<char> {
    s.map_values(|c: char| upper_char(c))
}

/// The five voiced consonants that the devoicing rules replace.
pub open spec fn is_voiced(c: char) -> bool {
    c == 'Б' || c == 'З' || c == 'Д' || c == 'В' || c == 'Г'
}

/// The letters that can appear in an encoded word: the uppercase Cyrillic
/// range without the deleted signs (Ъ, Ь) and without the folded vowels
/// (О, Ы, Я, Е, Э, Ю). Ё lies outside the А..Я range, so the stripping rule
/// removes it before the vowel folds ever see it.
pub open spec fn in_output_alphabet(c: char) -> bool {
    letters_contain(Letters::UpperCyrillic, c) && c != 'Ъ' && c != 'Ь' && c != 'О' && c != 'Ы'
        && c != 'Я' && c != 'Е' && c != 'Э' && c != 'Ю'
}

} // verus!
