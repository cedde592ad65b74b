use metaphone::Language;
use metaphone::Metaphone;
use metaphone::remove_duplicate_characters;

#[test]
fn test_ru() {
    let metaphone = Metaphone::new(Language::Russian);

    assert_eq!(metaphone.get("Шварценеггер"), "ШВАРЦИНИГИР");
    assert_eq!(metaphone.get("Взвешенный"), "ФСВИШИНАЙ");
    assert_eq!(metaphone.get("Аффилированный"), "АФИЛИРАВАНАЙ");
    assert_eq!(metaphone.get("Воспользовавшемуся"), "ВАСПАЛЗАВАФШИМУСА");
    assert_eq!(metaphone.get("Предшествовавшими"), "ПРИТШИСТВАВАФШИМИ");
    assert_eq!(metaphone.get("Нововодолажского"), "НАВАВАДАЛАЖСКАГА");
    assert_eq!(metaphone.get("Неиссякаемый"), "НИСАКАИМАЙ");
    assert_eq!(metaphone.get("Дифференцированная"), "ДИФИРИНЦИРАВАНА");
    assert_eq!(metaphone.get("Мальденштам"), "МАЛДИНШТАМ");
    assert_eq!(metaphone.get("Верблюд"), "ВИРБЛУТ");
}

#[test]
fn test_ua() {
    let metaphone = Metaphone::new(Language::Ukrainian);
    assert_eq!(metaphone.get("Взвінчений"), "ФСВИНЧИНИЙ");
}

#[test]
fn duplicate_collapse() {
    assert_eq!(remove_duplicate_characters(""), "");
    assert_eq!(remove_duplicate_characters("ССАА"), "СА");
    assert_eq!(remove_duplicate_characters("СССССС"), "С");
    // Non-adjacent repeats are untouched.
    assert_eq!(remove_duplicate_characters("САСА"), "САСА");
    assert_eq!(remove_duplicate_characters("АББВВВГ"), "АБВГ");
}

#[test]
fn duplicate_collapse_is_idempotent() {
    for word in ["", "ААББ", "АБАБ", "ШШВААРЦ", "ааа"] {
        let once = remove_duplicate_characters(word);
        let twice = remove_duplicate_characters(&once);
        assert_eq!(twice, once);
    }
}

#[test]
fn empty_word_stays_empty() {
    let metaphone = Metaphone::new(Language::Russian);
    assert_eq!(metaphone.get(""), "");
}

#[test]
fn encode_is_deterministic() {
    let metaphone = Metaphone::new(Language::Russian);
    assert_eq!(metaphone.get("Шварценеггер"), metaphone.get("Шварценеггер"));
    let other = Metaphone::new(Language::Russian);
    assert_eq!(metaphone.get("Верблюд"), other.get("Верблюд"));
    let ua = Metaphone::new(Language::Ukrainian);
    assert_eq!(ua.get("Взвінчений"), ua.get("Взвінчений"));
}

#[test]
fn word_final_devoicing() {
    let metaphone = Metaphone::new(Language::Russian);
    // Final Б surfaces as П, final З as С, final Д as Т.
    assert_eq!(metaphone.get("Дуб"), "ДУП");
    assert_eq!(metaphone.get("Мороз"), "МАРАС");
    assert_eq!(metaphone.get("Город"), "ГАРАТ");
}

#[test]
fn devoicing_before_consonant() {
    let metaphone = Metaphone::new(Language::Russian);
    // The initial ВЗ cluster devoices to ФС in one word.
    assert_eq!(metaphone.get("Взвод"), "ФСВАТ");
}

#[test]
fn non_cyrillic_characters_are_stripped() {
    let metaphone = Metaphone::new(Language::Russian);
    assert_eq!(metaphone.get("abc123Привет!"), "ПРИВИТ");
    assert_eq!(metaphone.get("a1!?"), "");
}

#[test]
fn yo_lies_outside_the_stripping_range() {
    let metaphone = Metaphone::new(Language::Russian);
    // Ё is outside the А..Я range, so the stripping rule deletes it.
    assert_eq!(metaphone.get("Ёлка"), "ЛКА");
}

#[test]
fn silent_signs_are_deleted() {
    let metaphone = Metaphone::new(Language::Russian);
    assert_eq!(metaphone.get("Объезд"), "АБИСТ");
    assert_eq!(metaphone.get("Мель"), "МИЛ");
}

#[test]
fn iotated_digraphs_merge() {
    let metaphone = Metaphone::new(Language::Russian);
    // ЙО, ИО, ЙЕ and ИЕ all become И.
    assert_eq!(metaphone.get("Район"), "РАИН");
    assert_eq!(metaphone.get("Майонез"), "МАИНИС");
}

#[test]
fn affricate_clusters_merge() {
    let metaphone = Metaphone::new(Language::Russian);
    // ТС and ДС merge into Ц.
    assert_eq!(metaphone.get("Детство"), "ДИЦТВА");
    assert_eq!(metaphone.get("Братство"), "БРАЦТВА");
}

#[test]
fn ukrainian_lowercase_i_is_folded() {
    let metaphone = Metaphone::new(Language::Ukrainian);
    assert_eq!(metaphone.get("сільський"), "СИЛСКИЙ");
}

#[test]
fn russian_output_alphabet() {
    let metaphone = Metaphone::new(Language::Russian);
    let folded = ['Ъ', 'Ь', 'О', 'Ы', 'Я', 'Е', 'Ё', 'Э', 'Ю'];
    for word in ["Шварценеггер", "Объёмный", "Съезд", "abcЮля123", "Ёё"] {
        let code = metaphone.get(word);
        for c in code.chars() {
            assert!(('А'..='Я').contains(&c), "unexpected {c} in {code}");
            assert!(!folded.contains(&c), "folded vowel {c} in {code}");
        }
    }
}

#[test]
fn no_adjacent_duplicates_in_output() {
    let metaphone = Metaphone::new(Language::Russian);
    for word in ["Аффилированный", "Неиссякаемый", "Ссссс", "Воззвание"] {
        let code = metaphone.get(word);
        let chars: Vec<char> = code.chars().collect();
        for pair in chars.windows(2) {
            assert_ne!(pair[0], pair[1], "adjacent duplicates in {code}");
        }
    }
}
