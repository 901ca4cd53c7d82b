//! Interface strings in every supported language.
use vstd::prelude::*;

use crate::settings::UiLanguage;

verus! {

/// Every translatable string of the interface.
#[derive(Debug, Clone, Copy, PartialEq, Eq, Hash, Structural)]
pub enum UiKey {
    AppTitle,
    SettingsTitle,
    SettingsTheme,
    SettingsFont,
    SettingsOptions,
    SettingsIgnoreDiacritics,
    SettingsShowTransliteration,
    SettingsIncludeDual,
    FiltersTitle,
    FiltersPos,
    FiltersTense,
    FiltersPerson,
    FiltersVoice,
    FiltersMood,
    FiltersCase,
    FiltersNumber,
    FiltersWords,
    FiltersReset,
    FiltersSearch,
    BuilderTitle,
    BuilderSavedNominal,
    BuilderSavedVerb,
    BuilderLemmaField,
    BuilderTranslationField,
    BuilderSaveBtn,
    ModeParadigm,
    ModeFlashcard,
    ModeFlashcardRev,
    ModeFillIn,
    ProgressTitle,
    Back,
    Reset,
    Delete,
}

pub open spec fn ui_key_ru(x: UiKey) -> Seq<char> {
    match x {
        UiKey::AppTitle => "σφόδρα"@,
        UiKey::SettingsTitle => "Настройки"@,
        UiKey::SettingsTheme => "Тема"@,
        UiKey::SettingsFont => "Шрифт для греческого"@,
        UiKey::SettingsOptions => "Опции"@,
        UiKey::SettingsIgnoreDiacritics => "Игнорировать диакритику при проверке"@,
        UiKey::SettingsShowTransliteration => "Показывать транслитерацию"@,
        UiKey::SettingsIncludeDual => "Показывать двойственное число в таблицах"@,
        UiKey::FiltersTitle => "Фильтры"@,
        UiKey::FiltersPos => "Часть речи"@,
        UiKey::FiltersTense => "Время"@,
        UiKey::FiltersPerson => "Лицо"@,
        UiKey::FiltersVoice => "Залог"@,
        UiKey::FiltersMood => "Наклонение"@,
        UiKey::FiltersCase => "Падеж"@,
        UiKey::FiltersNumber => "Число"@,
        UiKey::FiltersWords => "Конкретные слова"@,
        UiKey::FiltersReset => "Сбросить фильтры"@,
        UiKey::FiltersSearch => "Поиск по слову или переводу…"@,
        UiKey::BuilderTitle => "Создать парадигму"@,
        UiKey::BuilderSavedNominal => "Парадигма сохранена и уже участвует в фильтрах и тренировках."@,
        UiKey::BuilderSavedVerb => "Глагольная парадигма сохранена и уже участвует в фильтрах и тренировках."@,
        UiKey::BuilderLemmaField => "Лемма"@,
        UiKey::BuilderTranslationField => "Перевод / помета"@,
        UiKey::BuilderSaveBtn => "Сохранить парадигму"@,
        UiKey::ModeParadigm => "Просмотр парадигм"@,
        UiKey::ModeFlashcard => "Карточки"@,
        UiKey::ModeFlashcardRev => "Обратные карточки"@,
        UiKey::ModeFillIn => "Вписать форму"@,
        UiKey::ProgressTitle => "Прогресс"@,
        UiKey::Back => "← Назад"@,
        UiKey::Reset => "Сбросить"@,
        UiKey::Delete => "Удалить"@,
    }
}

pub open spec fn ui_key_en(x: UiKey) -> Seq<char> {
    match x {
        UiKey::AppTitle => "σφόδρα"@,
        UiKey::SettingsTitle => "Settings"@,
        UiKey::SettingsTheme => "Theme"@,
        UiKey::SettingsFont => "Greek font"@,
        UiKey::SettingsOptions => "Options"@,
        UiKey::SettingsIgnoreDiacritics => "Ignore diacritics when checking"@,
        UiKey::SettingsShowTransliteration => "Show transliteration"@,
        UiKey::SettingsIncludeDual => "Show dual in paradigm tables"@,
        UiKey::FiltersTitle => "Filters"@,
        UiKey::FiltersPos => "Part of speech"@,
        UiKey::FiltersTense => "Tense"@,
        UiKey::FiltersPerson => "Person"@,
        UiKey::FiltersVoice => "Voice"@,
        UiKey::FiltersMood => "Mood"@,
        UiKey::FiltersCase => "Case"@,
        UiKey::FiltersNumber => "Number"@,
        UiKey::FiltersWords => "Specific words"@,
        UiKey::FiltersReset => "Reset filters"@,
        UiKey::FiltersSearch => "Search by word or translation…"@,
        UiKey::BuilderTitle => "Create paradigm"@,
        UiKey::BuilderSavedNominal => "Paradigm saved and included in filters and drills."@,
        UiKey::BuilderSavedVerb => "Verb paradigm saved and included in filters and drills."@,
        UiKey::BuilderLemmaField => "Lemma"@,
        UiKey::BuilderTranslationField => "Translation / note"@,
        UiKey::BuilderSaveBtn => "Save paradigm"@,
        UiKey::ModeParadigm => "Paradigm view"@,
        UiKey::ModeFlashcard => "Flashcards"@,
        UiKey::ModeFlashcardRev => "Reverse flashcards"@,
        UiKey::ModeFillIn => "Fill in form"@,
        UiKey::ProgressTitle => "Progress"@,
        UiKey::Back => "← Back"@,
        UiKey::Reset => "Reset"@,
        UiKey::Delete => "Delete"@,
    }
}

impl UiKey {
    fn ru(&self) -> (r: &'static str)
        ensures
            r@ == ui_key_ru(*self),
    {
        match self {
            UiKey::AppTitle => "σφόδρα",
            UiKey::SettingsTitle => "Настройки",
            UiKey::SettingsTheme => "Тема",
            UiKey::SettingsFont => "Шрифт для греческого",
            UiKey::SettingsOptions => "Опции",
            UiKey::SettingsIgnoreDiacritics => "Игнорировать диакритику при проверке",
            UiKey::SettingsShowTransliteration => "Показывать транслитерацию",
            UiKey::SettingsIncludeDual => "Показывать двойственное число в таблицах",
            UiKey::FiltersTitle => "Фильтры",
            UiKey::FiltersPos => "Часть речи",
            UiKey::FiltersTense => "Время",
            UiKey::FiltersPerson => "Лицо",
            UiKey::FiltersVoice => "Залог",
            UiKey::FiltersMood => "Наклонение",
            UiKey::FiltersCase => "Падеж",
            UiKey::FiltersNumber => "Число",
            UiKey::FiltersWords => "Конкретные слова",
            UiKey::FiltersReset => "Сбросить фильтры",
            UiKey::FiltersSearch => "Поиск по слову или переводу…",
            UiKey::BuilderTitle => "Создать парадигму",
            UiKey::BuilderSavedNominal => "Парадигма сохранена и уже участвует в фильтрах и тренировках.",
            UiKey::BuilderSavedVerb => "Глагольная парадигма сохранена и уже участвует в фильтрах и тренировках.",
            UiKey::BuilderLemmaField => "Лемма",
            UiKey::BuilderTranslationField => "Перевод / помета",
            UiKey::BuilderSaveBtn => "Сохранить парадигму",
            UiKey::ModeParadigm => "Просмотр парадигм",
            UiKey::ModeFlashcard => "Карточки",
            UiKey::ModeFlashcardRev => "Обратные карточки",
            UiKey::ModeFillIn => "Вписать форму",
            UiKey::ProgressTitle => "Прогресс",
            UiKey::Back => "← Назад",
            UiKey::Reset => "Сбросить",
            UiKey::Delete => "Удалить",
        }
    }

    fn en(&self) -> (r: &'static str)
        ensures
            r@ == ui_key_en(*self),
    {
        match self {
            UiKey::AppTitle => "σφόδρα",
            UiKey::SettingsTitle => "Settings",
            UiKey::SettingsTheme => "Theme",
            UiKey::SettingsFont => "Greek font",
            UiKey::SettingsOptions => "Options",
            UiKey::SettingsIgnoreDiacritics => "Ignore diacritics when checking",
            UiKey::SettingsShowTransliteration => "Show transliteration",
            UiKey::SettingsIncludeDual => "Show dual in paradigm tables",
            UiKey::FiltersTitle => "Filters",
            UiKey::FiltersPos => "Part of speech",
            UiKey::FiltersTense => "Tense",
            UiKey::FiltersPerson => "Person",
            UiKey::FiltersVoice => "Voice",
            UiKey::FiltersMood => "Mood",
            UiKey::FiltersCase => "Case",
            UiKey::FiltersNumber => "Number",
            UiKey::FiltersWords => "Specific words",
            UiKey::FiltersReset => "Reset filters",
            UiKey::FiltersSearch => "Search by word or translation…",
            UiKey::BuilderTitle => "Create paradigm",
            UiKey::BuilderSavedNominal => "Paradigm saved and included in filters and drills.",
            UiKey::BuilderSavedVerb => "Verb paradigm saved and included in filters and drills.",
            UiKey::BuilderLemmaField => "Lemma",
            UiKey::BuilderTranslationField => "Translation / note",
            UiKey::BuilderSaveBtn => "Save paradigm",
            UiKey::ModeParadigm => "Paradigm view",
            UiKey::ModeFlashcard => "Flashcards",
            UiKey::ModeFlashcardRev => "Reverse flashcards",
            UiKey::ModeFillIn => "Fill in form",
            UiKey::ProgressTitle => "Progress",
            UiKey::Back => "← Back",
            UiKey::Reset => "Reset",
            UiKey::Delete => "Delete",
        }
    }
}

/// The interface string for `key` in `lang`.
pub open spec fn ui_text(key: UiKey, lang: UiLanguage) -> Seq<char> {
    match lang {
        UiLanguage::Ru => ui_key_ru(key),
        UiLanguage::En => ui_key_en(key),
    }
}

/// Get a translated interface string for the given key and language.
pub fn t(key: UiKey, lang: UiLanguage) -> (r: &'static str)
    ensures
        r@ == ui_text(key, lang),
{
    match lang {
        UiLanguage::Ru => key.ru(),
        UiLanguage::En => key.en(),
    }
}

/// Every interface text is non-empty, and the two languages give different
/// texts for every key but the application's title, which reads the same
/// in both.
pub proof fn lemma_ui_texts(key: UiKey, lang: UiLanguage)
    ensures
        ui_text(key, lang).len() > 0,
        key != UiKey::AppTitle ==> ui_text(key, UiLanguage::Ru) != ui_text(key, UiLanguage::En),
        ui_text(UiKey::AppTitle, lang) == "σφόδρα"@,
{
    reveal_strlit("σφόδρα");
    match key {
        UiKey::AppTitle => {},
        UiKey::SettingsTitle => {
            reveal_strlit("Настройки");
            reveal_strlit("Settings");
            assert(ui_key_ru(key).len() != ui_key_en(key).len());
        },
        UiKey::SettingsTheme => {
            reveal_strlit("Тема");
            reveal_strlit("Theme");
            assert(ui_key_ru(key).len() != ui_key_en(key).len());
        },
        UiKey::SettingsFont => {
            reveal_strlit("Шрифт для греческого");
            reveal_strlit("Greek font");
            assert(ui_key_ru(key).len() != ui_key_en(key).len());
        },
        UiKey::SettingsOptions => {
            reveal_strlit("Опции");
            reveal_strlit("Options");
            assert(ui_key_ru(key).len() != ui_key_en(key).len());
        },
        UiKey::SettingsIgnoreDiacritics => {
            reveal_strlit("Игнорировать диакритику при проверке");
            reveal_strlit("Ignore diacritics when checking");
            assert(ui_key_ru(key).len() != ui_key_en(key).len());
        },
        UiKey::SettingsShowTransliteration => {
            reveal_strlit("Показывать транслитерацию");
            reveal_strlit("Show transliteration");
            assert(ui_key_ru(key).len() != ui_key_en(key).len());
        },
        UiKey::SettingsIncludeDual => {
            reveal_strlit("Показывать двойственное число в таблицах");
            reveal_strlit("Show dual in paradigm tables");
            assert(ui_key_ru(key).len() != ui_key_en(key).len());
        },
        UiKey::FiltersTitle => {
            reveal_strlit("Фильтры");
            reveal_strlit("Filters");
            assert(ui_key_ru(key)[0] != ui_key_en(key)[0]);
        },
        UiKey::FiltersPos => {
            reveal_strlit("Часть речи");
            reveal_strlit("Part of speech");
            assert(ui_key_ru(key).len() != ui_key_en(key).len());
        },
        UiKey::FiltersTense => {
            reveal_strlit("Время");
            reveal_strlit("Tense");
            assert(ui_key_ru(key)[0] != ui_key_en(key)[0]);
        },
        UiKey::FiltersPerson => {
            reveal_strlit("Лицо");
            reveal_strlit("Person");
            assert(ui_key_ru(key).len() != ui_key_en(key).len());
        },
        UiKey::FiltersVoice => {
            reveal_strlit("Залог");
            reveal_strlit("Voice");
            assert(ui_key_ru(key)[0] != ui_key_en(key)[0]);
        },
        UiKey::FiltersMood => {
            reveal_strlit("Наклонение");
            reveal_strlit("Mood");
            assert(ui_key_ru(key).len() != ui_key_en(key).len());
        },
        UiKey::FiltersCase => {
            reveal_strlit("Падеж");
            reveal_strlit("Case");
            assert(ui_key_ru(key).len() != ui_key_en(key).len());
        },
        UiKey::FiltersNumber => {
            reveal_strlit("Число");
            reveal_strlit("Number");
            assert(ui_key_ru(key).len() != ui_key_en(key).len());
        },
        UiKey::FiltersWords => {
            reveal_strlit("Конкретные слова");
            reveal_strlit("Specific words");
            assert(ui_key_ru(key).len() != ui_key_en(key).len());
        },
        UiKey::FiltersReset => {
            reveal_strlit("Сбросить фильтры");
            reveal_strlit("Reset filters");
            assert(ui_key_ru(key).len() != ui_key_en(key).len());
        },
        UiKey::FiltersSearch => {
            reveal_strlit("Поиск по слову или переводу…");
            reveal_strlit("Search by word or translation…");
            assert(ui_key_ru(key).len() != ui_key_en(key).len());
        },
        UiKey::BuilderTitle => {
            reveal_strlit("Создать парадигму");
            reveal_strlit("Create paradigm");
            assert(ui_key_ru(key).len() != ui_key_en(key).len());
        },
        UiKey::BuilderSavedNominal => {
            reveal_strlit("Парадигма сохранена и уже участвует в фильтрах и тренировках.");
            reveal_strlit("Paradigm saved and included in filters and drills.");
            assert(ui_key_ru(key).len() != ui_key_en(key).len());
        },
        UiKey::BuilderSavedVerb => {
            reveal_strlit("Глагольная парадигма сохранена и уже участвует в фильтрах и тренировках.");
            reveal_strlit("Verb paradigm saved and included in filters and drills.");
            assert(ui_key_ru(key).len() != ui_key_en(key).len());
        },
        UiKey::BuilderLemmaField => {
            reveal_strlit("Лемма");
            reveal_strlit("Lemma");
            assert(ui_key_ru(key)[0] != ui_key_en(key)[0]);
        },
        UiKey::BuilderTranslationField => {
            reveal_strlit("Перевод / помета");
            reveal_strlit("Translation / note");
            assert(ui_key_ru(key).len() != ui_key_en(key).len());
        },
        UiKey::BuilderSaveBtn => {
            reveal_strlit("Сохранить парадигму");
            reveal_strlit("Save paradigm");
            assert(ui_key_ru(key).len() != ui_key_en(key).len());
        },
        UiKey::ModeParadigm => {
            reveal_strlit("Просмотр парадигм");
            reveal_strlit("Paradigm view");
            assert(ui_key_ru(key).len() != ui_key_en(key).len());
        },
        UiKey::ModeFlashcard => {
            reveal_strlit("Карточки");
            reveal_strlit("Flashcards");
            assert(ui_key_ru(key).len() != ui_key_en(key).len());
        },
        UiKey::ModeFlashcardRev => {
            reveal_strlit("Обратные карточки");
            reveal_strlit("Reverse flashcards");
            assert(ui_key_ru(key).len() != ui_key_en(key).len());
        },
        UiKey::ModeFillIn => {
            reveal_strlit("Вписать форму");
            reveal_strlit("Fill in form");
            assert(ui_key_ru(key).len() != ui_key_en(key).len());
        },
        UiKey::ProgressTitle => {
            reveal_strlit("Прогресс");
            reveal_strlit("Progress");
            assert(ui_key_ru(key)[0] != ui_key_en(key)[0]);
        },
        UiKey::Back => {
            reveal_strlit("← Назад");
            reveal_strlit("← Back");
            assert(ui_key_ru(key).len() != ui_key_en(key).len());
        },
        UiKey::Reset => {
            reveal_strlit("Сбросить");
            reveal_strlit("Reset");
            assert(ui_key_ru(key).len() != ui_key_en(key).len());
        },
        UiKey::Delete => {
            reveal_strlit("Удалить");
            reveal_strlit("Delete");
            assert(ui_key_ru(key).len() != ui_key_en(key).len());
        },
    }
}

} // verus!
