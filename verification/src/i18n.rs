use vstd::prelude::*;

verus! {

use crate::table::{kv_find, lemma_kv_find_absent, lemma_kv_find_first};
use crate::text::{chars_eq_str, lower, lower_str, str_eq};

/// Supported locales.
#[derive(Debug, Clone, Copy, PartialEq, Eq, Structural, Hash, Default)]
pub enum Locale {
    #[default]
    English,
    Japanese,
}

/// What `Locale::from_code` accepts: the code with ASCII capitals folded,
/// matched against the known names of each locale.
pub open spec fn spec_locale_from_code(s: Seq<char>) -> Option<Locale> {
    let l = lower(s);
    if l == "en"@ || l == "english"@ {
        Some(Locale::English)
    } else if l == "ja"@ || l == "jp"@ || l == "japanese"@ {
        Some(Locale::Japanese)
    } else {
        None::<Locale>
    }
}

impl Locale {
    /// The locale's code string.
    pub fn code(&self) -> (r: &'static str)
        ensures
            r@ == (match *self {
                Locale::English => "en"@,
                Locale::Japanese => "ja"@,
            }),
    {
        match self {
            Locale::English => "en",
            Locale::Japanese => "ja",
        }
    }

    /// The locale a language code names, accepting short codes and full
    /// names in any ASCII letter case; anything else names no locale.
    pub fn from_code(code: &str) -> (r: Option<Locale>)
        ensures
            r == spec_locale_from_code(code@),
    {
        let lowered: Vec<char> = lower_str(code);
        if chars_eq_str(&lowered, "en") || chars_eq_str(&lowered, "english") {
            Some(Locale::English)
        } else if chars_eq_str(&lowered, "ja") || chars_eq_str(&lowered, "jp") || chars_eq_str(
            &lowered,
            "japanese",
        ) {
            Some(Locale::Japanese)
        } else {
            None
        }
    }
}

/// Mathematical reading of a text table.
pub open spec fn texts_view(s: Seq<(String, String)>) -> Seq<(Seq<char>, Seq<char>)> {
    s.map_values(|p: (String, String)| (p.0@, p.1@))
}

/// The text a lookup yields: the stored translation, or the key itself as
/// the fallback.
pub open spec fn spec_localized(table: Seq<(Seq<char>, Seq<char>)>, key: Seq<char>) -> Seq<char> {
    match kv_find(table, key) {
        Some(text) => text,
        None => key,
    }
}

/// Translation stored under `key`, if any.
fn text_get<'a>(t: &'a Vec<(String, String)>, key: &str) -> (r: Option<&'a String>)
    ensures
        (match r {
            Some(v) => kv_find(texts_view(t@), key@) == Some(v@),
            None => kv_find(texts_view(t@), key@) is None,
        }),
{
    let mut i: usize = 0;
    while i < t.len()
        invariant
            i <= t@.len(),
            forall|j: int| 0 <= j < i ==> texts_view(t@)[j].0 != key@,
        decreases t@.len() - i,
    {
        if str_eq(t[i].0.as_str(), key) {
            proof {
                lemma_kv_find_first(texts_view(t@), key@, i as int);
            }
            return Some(&t[i].1);
        }
        i = i + 1;
    }
    proof {
        lemma_kv_find_absent(texts_view(t@), key@);
    }
    None
}

/// The text a lookup in one table yields, as an owned string.
fn localized(t: &Vec<(String, String)>, key: &str) -> (r: String)
    ensures
        r@ == spec_localized(texts_view(t@), key@),
{
    match text_get(t, key) {
        Some(v) => v.clone(),
        None => key.to_owned(),
    }
}

/// Localized text retrieval: translation tables for item names, machine
/// names, interface strings and readings (pronunciations used for sorting),
/// each falling back to the looked-up key itself.
#[derive(Debug)]
pub struct Localizer {
    items: Vec<(String, String)>,
    machines: Vec<(String, String)>,
    ui: Vec<(String, String)>,
    readings: Vec<(String, String)>,
}

impl Localizer {
    /// The item-name table, as the contracts of the lookups speak of it.
    pub closed spec fn items_table(&self) -> Seq<(Seq<char>, Seq<char>)> {
        texts_view(self.items@)
    }

    /// The machine-name table.
    pub closed spec fn machines_table(&self) -> Seq<(Seq<char>, Seq<char>)> {
        texts_view(self.machines@)
    }

    /// The interface-string table.
    pub closed spec fn ui_table(&self) -> Seq<(Seq<char>, Seq<char>)> {
        texts_view(self.ui@)
    }

    /// The readings table.
    pub closed spec fn readings_table(&self) -> Seq<(Seq<char>, Seq<char>)> {
        texts_view(self.readings@)
    }

    /// A localizer over the given translation tables.
    pub fn from_tables(
        items: Vec<(String, String)>,
        machines: Vec<(String, String)>,
        ui: Vec<(String, String)>,
        readings: Vec<(String, String)>,
    ) -> (r: Localizer)
        ensures
            r.items_table() == texts_view(items@),
            r.machines_table() == texts_view(machines@),
            r.ui_table() == texts_view(ui@),
            r.readings_table() == texts_view(readings@),
    {
        Localizer { items, machines, ui, readings }
    }

    /// A localizer with no translations: every lookup falls back to its key.
    pub fn empty() -> (r: Localizer)
        ensures
            r.items_table() == Seq::<(Seq<char>, Seq<char>)>::empty(),
            r.machines_table() == Seq::<(Seq<char>, Seq<char>)>::empty(),
            r.ui_table() == Seq::<(Seq<char>, Seq<char>)>::empty(),
            r.readings_table() == Seq::<(Seq<char>, Seq<char>)>::empty(),
    {
        let r = Localizer {
            items: Vec::new(),
            machines: Vec::new(),
            ui: Vec::new(),
            readings: Vec::new(),
        };
        proof {
            assert(r.items_table() =~= Seq::<(Seq<char>, Seq<char>)>::empty());
            assert(r.machines_table() =~= Seq::<(Seq<char>, Seq<char>)>::empty());
            assert(r.ui_table() =~= Seq::<(Seq<char>, Seq<char>)>::empty());
            assert(r.readings_table() =~= Seq::<(Seq<char>, Seq<char>)>::empty());
        }
        r
    }

    /// The localized name of an item, falling back to the item id.
    pub fn get_item(&self, item_id: &str) -> (r: String)
        ensures
            r@ == spec_localized(self.items_table(), item_id@),
    {
        localized(&self.items, item_id)
    }

    /// The reading of an item's name, used for sorting; falls back to the
    /// item id.
    pub fn get_reading(&self, item_id: &str) -> (r: String)
        ensures
            r@ == spec_localized(self.readings_table(), item_id@),
    {
        localized(&self.readings, item_id)
    }

    /// The localized name of a machine, falling back to the machine id.
    pub fn get_machine(&self, machine_id: &str) -> (r: String)
        ensures
            r@ == spec_localized(self.machines_table(), machine_id@),
    {
        localized(&self.machines, machine_id)
    }

    /// A localized interface string, falling back to the key.
    pub fn get_ui(&self, key: &str) -> (r: String)
        ensures
            r@ == spec_localized(self.ui_table(), key@),
    {
        localized(&self.ui, key)
    }
}

} // verus!
