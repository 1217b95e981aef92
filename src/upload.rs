use vstd::prelude::*;

use crate::table::StringTable;
use crate::text::{chars_of, occurs_at_exec, string_of};

verus! {

pub open spec fn ends_with(s: Seq<char>, suffix: Seq<char>) -> bool {
    suffix.len() <= s.len() && s.subrange(s.len() - suffix.len(), s.len() as int) == suffix
}

/// `::` followed by a deck's name: how a nested deck's full name ends.
pub open spec fn nested_suffix(deck: Seq<char>) -> Seq<char> {
    seq![':', ':'] + deck
}

/// The first of `names`, from `i` on, that ends with `suffix`.
pub open spec fn first_ending_from(names: Seq<Seq<char>>, suffix: Seq<char>, i: int) -> Option<
    Seq<char>,
>
    decreases names.len() - i,
{
    if 0 <= i < names.len() {
        if ends_with(names[i], suffix) {
            Some(names[i])
        } else {
            first_ending_from(names, suffix, i + 1)
        }
    } else {
        None
    }
}

/// The full name in the store of the deck a card names: the first known deck
/// whose name ends with `::` and that name, else the name itself.
pub open spec fn store_deck_name(names: Seq<Seq<char>>, deck: Seq<char>) -> Seq<char> {
    match first_ending_from(names, nested_suffix(deck), 0) {
        Some(n) => n,
        None => deck,
    }
}

pub open spec fn string_views(v: Seq<String>) -> Seq<Seq<char>> {
    v.map_values(|s: String| s@)
}

/// The decks known to the store, with the names already looked up.
pub struct DeckNameCache {
    store_names: Vec<String>,
    memo: StringTable,
}

impl DeckNameCache {
    pub closed spec fn names(&self) -> Seq<Seq<char>> {
        string_views(self.store_names@)
    }

    pub closed spec fn wf(&self) -> bool {
        &&& self.memo.wf()
        &&& forall|k: Seq<char>| #[trigger]
            self.memo@.contains_key(k) ==> self.memo@[k] == store_deck_name(self.names(), k)
    }

    /// A cache over the deck names that the store lists.
    pub fn new(store_names: Vec<String>) -> (r: Self)
        ensures
            r.wf(),
            r.names() == string_views(store_names@),
    {
        DeckNameCache { store_names, memo: StringTable::new() }
    }

    /// The full name in the store of deck `typ_deck_name`.
    pub fn get_anki_deck_name(&mut self, typ_deck_name: &str) -> (r: String)
        requires
            old(self).wf(),
        ensures
            final(self).wf(),
            final(self).names() == old(self).names(),
            r@ == store_deck_name(old(self).names(), typ_deck_name@),
    {
        let key = String::from_str(typ_deck_name);
        match self.memo.get(&key) {
            Some(v) => {
                return v.clone();
            },
            None => {},
        }
        let mut suffix = vec![':', ':'];
        let d = chars_of(typ_deck_name);
        let mut k: usize = 0;
        while k < d.len()
            invariant
                k <= d.len(),
                d@ == typ_deck_name@,
                suffix@ == seq![':', ':'] + d@.subrange(0, k as int),
            decreases d.len() - k,
        {
            suffix.push(d[k]);
            k = k + 1;
            assert(suffix@ =~= seq![':', ':'] + d@.subrange(0, k as int));
        }
        assert(d@.subrange(0, d.len() as int) =~= d@);
        let mut found: Option<String> = None;
        let mut i: usize = 0;
        while i < self.store_names.len()
            invariant
                self.wf(),
                i <= self.store_names.len(),
                suffix@ == nested_suffix(typ_deck_name@),
                found is None ==> first_ending_from(self.names(), suffix@, i as int)
                    == first_ending_from(self.names(), suffix@, 0),
                found is Some ==> first_ending_from(self.names(), suffix@, 0) == Some(
                    found->0@,
                ),
            decreases self.store_names.len() - i,
        {
            if found.is_none() {
                let name = chars_of(self.store_names[i].as_str());
                if suffix.len() <= name.len() && occurs_at_exec(
                    &name,
                    name.len() - suffix.len(),
                    &suffix,
                ) {
                    assert(self.names()[i as int] == self.store_names@[i as int]@);
                    found = Some(self.store_names[i].clone());
                } else {
                    assert(self.names()[i as int] == self.store_names@[i as int]@);
                }
            }
            i = i + 1;
        }
        let result = match found {
            Some(n) => n,
            None => key.clone(),
        };
        self.memo.insert(key, result.clone());
        result
    }
}

/// The names a basic two-field note type has in the locales the store ships.
pub open spec fn basic_locales() -> Seq<Seq<char>> {
    seq![
        seq!['B', 'a', 's', 'i', 'c'],
        seq!['B', 'a', 's', 'i', 'q', 'u', 'e'],
        seq!['G', 'r', 'u', 'n', 'd', 'l', 'e', 'g', 'e', 'n', 'd'],
    ]
}

pub open spec fn listed(models: Seq<Seq<char>>, m: Seq<char>) -> bool {
    exists|j: int| 0 <= j < models.len() && models[j] == m
}

/// The first locale, in their order, whose basic note type the store lists.
pub open spec fn basic_model(models: Seq<Seq<char>>) -> Option<Seq<char>> {
    if listed(models, basic_locales()[0]) {
        Some(basic_locales()[0])
    } else if listed(models, basic_locales()[1]) {
        Some(basic_locales()[1])
    } else if listed(models, basic_locales()[2]) {
        Some(basic_locales()[2])
    } else {
        None
    }
}

fn is_listed(models: &Vec<String>, m: &Vec<char>) -> (r: bool)
    ensures
        r == listed(string_views(models@), m@),
{
    let mut j: usize = 0;
    while j < models.len()
        invariant
            j <= models.len(),
            forall|t: int| 0 <= t < j ==> string_views(models@)[t] != m@,
        decreases models.len() - j,
    {
        let v = chars_of(models[j].as_str());
        if crate::text::chars_eq(&v, m) {
            assert(string_views(models@)[j as int] == m@);
            return true;
        }
        j = j + 1;
    }
    false
}

/// The basic note type of the store, among the names it lists.
pub fn choose_basic_model(models: &Vec<String>) -> (r: Option<String>)
    ensures
        match r {
            Some(m) => basic_model(string_views(models@)) == Some(m@),
            None => basic_model(string_views(models@)) is None,
        },
{
    let basic = vec!['B', 'a', 's', 'i', 'c'];
    let basique = vec!['B', 'a', 's', 'i', 'q', 'u', 'e'];
    let grundlegend = vec!['G', 'r', 'u', 'n', 'd', 'l', 'e', 'g', 'e', 'n', 'd'];
    if is_listed(models, &basic) {
        Some(string_of(&basic))
    } else if is_listed(models, &basique) {
        Some(string_of(&basique))
    } else if is_listed(models, &grundlegend) {
        Some(string_of(&grundlegend))
    } else {
        None
    }
}

/// The note type and its two field names that new notes use: the basic type
/// when it was found and has exactly two fields, else `Basic` with `Front`
/// and `Back`.
pub fn get_basic_model_name(model: Option<String>, fields: Option<Vec<String>>) -> (r: (
    String,
    (String, String),
))
    ensures
        ({
            let found = model is Some && fields is Some && fields->0.len() == 2;
            &&& found ==> r.0 == model->0 && r.1.0@ == fields->0[0]@ && r.1.1@ == fields->0[1]@
            &&& !found ==> r.0@ == "Basic"@ && r.1.0@ == "Front"@ && r.1.1@ == "Back"@
        }),
{
    match (model, fields) {
        (Some(m), Some(f)) => {
            if f.len() == 2 {
                let front = f[0].clone();
                let back = f[1].clone();
                return (m, (front, back));
            }
        },
        _ => {},
    }
    (String::from_str("Basic"), (String::from_str("Front"), String::from_str("Back")))
}

/// What the store is asked to do with a rendered card.
#[derive(Debug, Clone, Copy, PartialEq, Eq, Structural)]
pub enum NoteAction {
    /// Replace the fields of the note found by the card's tag.
    Update(i64),
    /// Add a new note.
    Add,
}

/// A card whose tag finds notes updates the first of them; else it is added.
pub fn note_action(note_ids: &Vec<i64>) -> (r: NoteAction)
    ensures
        note_ids.len() == 0 ==> r == NoteAction::Add,
        note_ids.len() > 0 ==> r == NoteAction::Update(note_ids[0]),
{
    if note_ids.len() == 0 {
        NoteAction::Add
    } else {
        NoteAction::Update(note_ids[0])
    }
}

} // verus!
