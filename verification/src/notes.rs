//! Notes: titled texts with the time of their last change, each in any
//! number of categories; and the categories themselves.

use vstd::prelude::*;
use std::collections::{HashMap, HashSet};
use vstd::std_specs::iter::IteratorSpec;
use crate::order::{
    is_stable_sort_of, lemma_bytes_le_total, lemma_bytes_le_transitive,
    lemma_stable_sort_of_values, stable_sort_by, str_le, text_le, total_preorder,
};
use crate::tasks::opt_text;

verus! {

broadcast use vstd::std_specs::hash::group_hash_axioms;

/// A note. Its id is a UUID held as a 128-bit integer; `last_update` is the
/// time of its last change in seconds since the Unix epoch.
#[derive(Debug)]
pub struct Note {
    pub id: u128,
    pub title: String,
    pub content: String,
    pub categories: HashSet<u128>,
    pub last_update: u64,
}

pub struct NoteView {
    pub id: u128,
    pub title: Seq<char>,
    pub content: Seq<char>,
    pub categories: Set<u128>,
    pub last_update: u64,
}

impl View for Note {
    type V = NoteView;

    open spec fn view(&self) -> NoteView {
        NoteView {
            id: self.id,
            title: self.title@,
            content: self.content@,
            categories: self.categories@,
            last_update: self.last_update,
        }
    }
}

/// A category of notes, with an optional colour.
#[derive(Debug)]
pub struct Category {
    pub id: u128,
    pub name: String,
    pub color: Option<String>,
}

pub struct CategoryView {
    pub id: u128,
    pub name: Seq<char>,
    pub color: Option<Seq<char>>,
}

impl View for Category {
    type V = CategoryView;

    open spec fn view(&self) -> CategoryView {
        CategoryView { id: self.id, name: self.name@, color: opt_text(self.color) }
    }
}

pub open spec fn note_views(s: Seq<Note>) -> Seq<NoteView> {
    s.map_values(|n: Note| n@)
}

pub open spec fn category_views(s: Seq<Category>) -> Seq<CategoryView> {
    s.map_values(|c: Category| c@)
}

/// `keys` lists every element of `dom` exactly once.
pub open spec fn enumerates(keys: Seq<u128>, dom: Set<u128>) -> bool {
    keys.no_duplicates() && keys.to_set() == dom
}

/// The notes with the ids `keys`, in that order, that are in the category.
pub open spec fn listed_in_category(notes: Map<u128, NoteView>, keys: Seq<u128>, category: u128) -> Seq<NoteView> {
    keys.map_values(|k: u128| notes[k]).filter(|n: NoteView| n.categories.contains(category))
}

/// Most recently changed first.
pub open spec fn latest_first(a: NoteView, b: NoteView) -> bool {
    a.last_update >= b.last_update
}

/// By name (UTF-8 byte order).
pub open spec fn by_name(a: CategoryView, b: CategoryView) -> bool {
    text_le(a.name, b.name)
}

/// The keys of the map, each once, in the map's order.
fn keys_of<V>(m: &HashMap<u128, V>) -> (r: Vec<u128>)
    ensures
        enumerates(r@, m@.dom()),
{
    let mut r: Vec<u128> = Vec::new();
    let ghost whole = vstd::std_specs::hash::spec_hash_map_iter(m).remaining();
    for (k, v) in it: m.iter()
        invariant
            it.seq() == whole,
            whole == vstd::std_specs::hash::spec_hash_map_iter(m).remaining(),
            r@.len() == it.index(),
            forall|i: int| 0 <= i < it.index() ==> r@[i] == *whole[i].0,
    {
        r.push(*k);
    }
    assert(r@.len() == whole.len());
    assert(whole.no_duplicates());
    assert forall|i: int, j: int|
        0 <= i < r@.len() && 0 <= j < r@.len() && i != j implies r@[i] != r@[j] by {
        assert(m@.contains_key(*whole[i].0) && m@[*whole[i].0] == *whole[i].1);
        assert(m@.contains_key(*whole[j].0) && m@[*whole[j].0] == *whole[j].1);
        if r@[i] == r@[j] {
            assert(whole[i] == whole[j]);
        }
    }
    assert forall|k: u128| r@.to_set().contains(k) <==> m@.dom().contains(k) by {
        if m@.contains_key(k) {
            assert(whole.contains((&k, &m@[k])));
            let i = choose|i: int| 0 <= i < whole.len() && whole[i] == (&k, &m@[k]);
            assert(r@[i] == k);
            assert(r@.contains(k));
        }
        if r@.contains(k) {
            let i = choose|i: int| 0 <= i < r@.len() && r@[i] == k;
            assert(m@.contains_key(*whole[i].0));
        }
    }
    assert(r@.to_set() =~= m@.dom());
    r
}

/// A copy of a set of ids (`HashSet::clone`).
#[verifier::external_body]
fn copy_ids(s: &HashSet<u128>) -> (r: HashSet<u128>)
    ensures
        r@ == s@,
{
    s.clone()
}

#[verifier::external_type_specification]
#[verifier::external_body]
pub struct ExSystemTime(std::time::SystemTime);

/// The current time of the system clock (`SystemTime::now`).
#[verifier::external_body]
fn system_now() -> (r: std::time::SystemTime) {
    std::time::SystemTime::now()
}

/// How long after the Unix epoch the time is (`SystemTime::duration_since`
/// with `UNIX_EPOCH`); `None` when it is before it.
#[verifier::external_body]
fn since_epoch(t: std::time::SystemTime) -> (r: Option<std::time::Duration>) {
    t.duration_since(std::time::UNIX_EPOCH).ok()
}

/// The whole seconds of a duration (`Duration::as_secs`).
#[verifier::external_body]
fn whole_seconds(d: std::time::Duration) -> (r: u64) {
    d.as_secs()
}

/// The current time in seconds since the Unix epoch; 0 if the clock is
/// before it.
fn now_secs() -> (r: u64) {
    match since_epoch(system_now()) {
        Some(d) => whole_seconds(d),
        None => 0,
    }
}

impl Note {
    /// A copy of the note.
    pub fn duplicate(&self) -> (r: Note)
        ensures
            r@ == self@,
    {
        Note {
            id: self.id,
            title: self.title.clone(),
            content: self.content.clone(),
            categories: copy_ids(&self.categories),
            last_update: self.last_update,
        }
    }
}

impl Category {
    /// A copy of the category.
    pub fn duplicate(&self) -> (r: Category)
        ensures
            r@ == self@,
    {
        let color = match &self.color {
            Some(c) => Some(c.clone()),
            None => None,
        };
        Category { id: self.id, name: self.name.clone(), color }
    }
}

fn newer_or_same(a: &Note, b: &Note) -> (r: bool)
    ensures
        r == latest_first(a@, b@),
{
    a.last_update >= b.last_update
}

fn name_no_later(a: &Category, b: &Category) -> (r: bool)
    ensures
        r == by_name(a@, b@),
{
    str_le(a.name.as_str(), b.name.as_str())
}

/// The notes and the categories, each keyed by its id.
#[derive(Debug, Default)]
pub struct NotesController {
    pub notes: HashMap<u128, Note>,
    pub categories: HashMap<u128, Category>,
}

impl NotesController {
    pub open spec fn spec_notes(&self) -> Map<u128, NoteView> {
        self.notes@.map_values(|n: Note| n@)
    }

    pub open spec fn spec_categories(&self) -> Map<u128, CategoryView> {
        self.categories@.map_values(|c: Category| c@)
    }

    /// Each note and category is kept under its own id.
    pub open spec fn wf(&self) -> bool {
        &&& forall|k: u128| #[trigger] self.notes@.contains_key(k) ==> self.notes@[k].id == k
        &&& forall|k: u128| #[trigger] self.categories@.contains_key(k) ==> self.categories@[k].id == k
    }

    /// No notes and no categories.
    pub fn new() -> (r: Self)
        ensures
            r.spec_notes() == Map::<u128, NoteView>::empty(),
            r.spec_categories() == Map::<u128, CategoryView>::empty(),
            r.wf(),
    {
        let r = NotesController { notes: HashMap::new(), categories: HashMap::new() };
        assert(r.spec_notes() =~= Map::<u128, NoteView>::empty());
        assert(r.spec_categories() =~= Map::<u128, CategoryView>::empty());
        r
    }

    /// Adds a note with a fresh random id, the title and content, no
    /// categories, and the current time; returns a copy of it.
    pub fn create_note(&mut self, title: &str, content: &str) -> (r: Note)
        ensures
            r@.title == title@,
            r@.content == content@,
            r@.categories == Set::<u128>::empty(),
            final(self).spec_notes() == old(self).spec_notes().insert(r.id, r@),
            final(self).spec_categories() == old(self).spec_categories(),
            old(self).wf() ==> final(self).wf(),
    {
        let note = Note {
            id: crate::ids::new_uuid(),
            title: String::from_str(title),
            content: String::from_str(content),
            categories: HashSet::new(),
            last_update: now_secs(),
        };
        self.notes.insert(note.id, note.duplicate());
        proof {
            assert(self.spec_notes() =~= old(self).spec_notes().insert(note.id, note@));
        }
        note
    }

    /// Replaces the content of the note `id` and stamps it with the current
    /// time; `Note not found` if there is no such note.
    pub fn edit_note_content(&mut self, id: u128, content: &str) -> (r: Result<(), String>)
        ensures
            r is Ok <==> old(self).spec_notes().contains_key(id),
            r matches Err(e) ==> e@ == "Note not found"@ && final(self).spec_notes() == old(
                self,
            ).spec_notes(),
            r is Ok ==> final(self).spec_notes() == old(self).spec_notes().insert(
                id,
                NoteView {
                    content: content@,
                    last_update: final(self).spec_notes()[id].last_update,
                    ..old(self).spec_notes()[id]
                },
            ),
            final(self).spec_categories() == old(self).spec_categories(),
            old(self).wf() ==> final(self).wf(),
    {
        match self.notes.remove(&id) {
            Some(mut note) => {
                note.content = String::from_str(content);
                note.last_update = now_secs();
                self.notes.insert(id, note);
                proof {
                    assert(self.spec_notes() =~= old(self).spec_notes().insert(id, note@));
                }
                Ok(())
            },
            None => {
                proof {
                    assert(self.spec_notes() =~= old(self).spec_notes());
                }
                Err(String::from_str("Note not found"))
            },
        }
    }

    /// Replaces the title of the note `id` and stamps it with the current
    /// time; `Note not found` if there is no such note.
    pub fn edit_note_title(&mut self, id: u128, title: &str) -> (r: Result<(), String>)
        ensures
            r is Ok <==> old(self).spec_notes().contains_key(id),
            r matches Err(e) ==> e@ == "Note not found"@ && final(self).spec_notes() == old(
                self,
            ).spec_notes(),
            r is Ok ==> final(self).spec_notes() == old(self).spec_notes().insert(
                id,
                NoteView {
                    title: title@,
                    last_update: final(self).spec_notes()[id].last_update,
                    ..old(self).spec_notes()[id]
                },
            ),
            final(self).spec_categories() == old(self).spec_categories(),
            old(self).wf() ==> final(self).wf(),
    {
        match self.notes.remove(&id) {
            Some(mut note) => {
                note.title = String::from_str(title);
                note.last_update = now_secs();
                self.notes.insert(id, note);
                proof {
                    assert(self.spec_notes() =~= old(self).spec_notes().insert(id, note@));
                }
                Ok(())
            },
            None => {
                proof {
                    assert(self.spec_notes() =~= old(self).spec_notes());
                }
                Err(String::from_str("Note not found"))
            },
        }
    }

    /// The note `id`, if there is one.
    pub fn get_note(&self, id: u128) -> (r: Option<&Note>)
        ensures
            match r {
                Some(n) => self.spec_notes().contains_key(id) && n@ == self.spec_notes()[id],
                None => !self.spec_notes().contains_key(id),
            },
    {
        self.notes.get(&id)
    }

    /// Copies of the notes with the ids `keys`, in that order.
    fn notes_at(&self, keys: &Vec<u128>) -> (r: Vec<Note>)
        requires
            forall|i: int| 0 <= i < keys@.len() ==> self.notes@.contains_key(#[trigger] keys@[i]),
        ensures
            note_views(r@) == keys@.map_values(|k: u128| self.spec_notes()[k]),
    {
        let mut r: Vec<Note> = Vec::new();
        let mut i: usize = 0;
        while i < keys.len()
            invariant
                i <= keys@.len(),
                forall|j: int| 0 <= j < keys@.len() ==> self.notes@.contains_key(#[trigger] keys@[j]),
                note_views(r@) == keys@.subrange(0, i as int).map_values(|k: u128| self.spec_notes()[k]),
            decreases keys@.len() - i,
        {
            let n = self.notes.get(&keys[i]).unwrap();
            let ghost before = r@;
            r.push(n.duplicate());
            proof {
                assert(note_views(r@) =~= note_views(before).push(n@));
                assert(keys@.subrange(0, i + 1) =~= keys@.subrange(0, i as int).push(keys@[i as int]));
                assert(keys@.subrange(0, i + 1).map_values(|k: u128| self.spec_notes()[k]) =~= keys@.subrange(0, i as int).map_values(|k: u128| self.spec_notes()[k]).push(self.spec_notes()[keys@[i as int]]));
            }
            i = i + 1;
        }
        assert(keys@.subrange(0, keys@.len() as int) =~= keys@);
        r
    }

    /// Copies of all notes, most recently changed first; notes changed at the
    /// same second keep the map's order.
    pub fn get_notes(&self) -> (r: Vec<Note>)
        ensures
            exists|keys: Seq<u128>|
                #![trigger enumerates(keys, self.notes@.dom())]
                enumerates(keys, self.notes@.dom()) && is_stable_sort_of(
                    keys.map_values(|k: u128| self.spec_notes()[k]),
                    note_views(r@),
                    |a: NoteView, b: NoteView| latest_first(a, b),
                ),
    {
        let keys = self.keys_list();
        let list = self.notes_at(&keys);
        let ghost listed = list@;
        proof {
            let leq = |a: Note, b: Note| latest_first(a@, b@);
            assert forall|a: Note, b: Note| #[trigger] leq(a, b) || leq(b, a) by {}
            assert forall|a: Note, b: Note, c: Note|
                #[trigger] leq(a, b) && #[trigger] leq(b, c) implies leq(a, c) by {}
            assert(total_preorder(leq));
        }
        let sorted = stable_sort_by(list, newer_or_same, Ghost(|a: Note, b: Note| latest_first(a@, b@)));
        proof {
            lemma_stable_sort_of_values(
                listed,
                sorted@,
                |n: Note| n@,
                |a: NoteView, b: NoteView| latest_first(a, b),
                |a: Note, b: Note| latest_first(a@, b@),
            );
            assert(listed.map_values(|n: Note| n@) == note_views(listed));
            assert(sorted@.map_values(|n: Note| n@) == note_views(sorted@));
            assert(enumerates(keys@, self.notes@.dom()));
        }
        sorted
    }

    /// The ids of the notes, each once.
    fn keys_list(&self) -> (r: Vec<u128>)
        ensures
            enumerates(r@, self.notes@.dom()),
            forall|i: int| 0 <= i < r@.len() ==> self.notes@.contains_key(#[trigger] r@[i]),
    {
        let r = keys_of(&self.notes);
        proof {
            assert forall|i: int| 0 <= i < r@.len() implies self.notes@.contains_key(#[trigger] r@[i]) by {
                assert(r@.to_set().contains(r@[i]));
            }
        }
        r
    }

    /// Removes the note `id` and returns it; `Note not found` if there is no
    /// such note.
    pub fn delete_note(&mut self, id: u128) -> (r: Result<Note, String>)
        ensures
            r is Ok <==> old(self).spec_notes().contains_key(id),
            r matches Ok(n) ==> n@ == old(self).spec_notes()[id],
            r matches Err(e) ==> e@ == "Note not found"@,
            final(self).spec_notes() == old(self).spec_notes().remove(id),
            final(self).spec_categories() == old(self).spec_categories(),
            old(self).wf() ==> final(self).wf(),
    {
        let removed = self.notes.remove(&id);
        proof {
            assert(self.spec_notes() =~= old(self).spec_notes().remove(id));
        }
        match removed {
            Some(n) => Ok(n),
            None => Err(String::from_str("Note not found")),
        }
    }

    /// Adds a category with a fresh random id, the name and the colour;
    /// returns a copy of it.
    pub fn create_category(&mut self, name: &str, color: Option<&str>) -> (r: Category)
        ensures
            r@.name == name@,
            r@.color == crate::tasks::opt_str(color),
            final(self).spec_categories() == old(self).spec_categories().insert(r.id, r@),
            final(self).spec_notes() == old(self).spec_notes(),
            old(self).wf() ==> final(self).wf(),
    {
        let color = match color {
            Some(c) => Some(String::from_str(c)),
            None => None,
        };
        let category = Category { id: crate::ids::new_uuid(), name: String::from_str(name), color };
        self.categories.insert(category.id, category.duplicate());
        proof {
            assert(self.spec_categories() =~= old(self).spec_categories().insert(category.id, category@));
        }
        category
    }

    /// Puts the note in the category (or takes it out, when `assign` is
    /// false).
    fn set_membership(&mut self, note_id: u128, category_id: u128, assign: bool) -> (r: Result<(), String>)
        ensures
            !old(self).spec_categories().contains_key(category_id) ==> (r matches Err(e) && e@
                == "Category does not exist"@),
            old(self).spec_categories().contains_key(category_id) && !old(
                self,
            ).spec_notes().contains_key(note_id) ==> (r matches Err(e) && e@ == "Note not found"@),
            r is Err ==> final(self).spec_notes() == old(self).spec_notes(),
            r is Ok <==> old(self).spec_categories().contains_key(category_id) && old(
                self,
            ).spec_notes().contains_key(note_id),
            r is Ok ==> final(self).spec_notes() == old(
                self,
            ).spec_notes().insert(
                note_id,
                NoteView {
                    categories: if assign {
                        old(self).spec_notes()[note_id].categories.insert(category_id)
                    } else {
                        old(self).spec_notes()[note_id].categories.remove(category_id)
                    },
                    ..old(self).spec_notes()[note_id]
                },
            ),
            final(self).spec_categories() == old(self).spec_categories(),
            old(self).wf() ==> final(self).wf(),
    {
        if !self.categories.contains_key(&category_id) {
            return Err(String::from_str("Category does not exist"));
        }
        match self.notes.remove(&note_id) {
            Some(mut note) => {
                if assign {
                    note.categories.insert(category_id);
                } else {
                    note.categories.remove(&category_id);
                }
                self.notes.insert(note_id, note);
                proof {
                    assert(self.spec_notes() =~= old(self).spec_notes().insert(note_id, note@));
                }
                Ok(())
            },
            None => {
                proof {
                    assert(self.spec_notes() =~= old(self).spec_notes());
                }
                Err(String::from_str("Note not found"))
            },
        }
    }

    /// Puts the note in the category: `Category does not exist` if there is
    /// no such category, else `Note not found` if there is no such note.
    pub fn assign_category(&mut self, note_id: u128, category_id: u128) -> (r: Result<(), String>)
        ensures
            !old(self).spec_categories().contains_key(category_id) ==> (r matches Err(e) && e@
                == "Category does not exist"@),
            old(self).spec_categories().contains_key(category_id) && !old(
                self,
            ).spec_notes().contains_key(note_id) ==> (r matches Err(e) && e@ == "Note not found"@),
            r is Err ==> final(self).spec_notes() == old(self).spec_notes(),
            r is Ok <==> old(self).spec_categories().contains_key(category_id) && old(
                self,
            ).spec_notes().contains_key(note_id),
            r is Ok ==> final(self).spec_notes() == old(
                self,
            ).spec_notes().insert(
                note_id,
                NoteView {
                    categories: old(self).spec_notes()[note_id].categories.insert(category_id),
                    ..old(self).spec_notes()[note_id]
                },
            ),
            final(self).spec_categories() == old(self).spec_categories(),
            old(self).wf() ==> final(self).wf(),
    {
        self.set_membership(note_id, category_id, true)
    }

    /// Takes the note out of the category: `Category does not exist` if there
    /// is no such category, else `Note not found` if there is no such note.
    pub fn remove_category(&mut self, note_id: u128, category_id: u128) -> (r: Result<(), String>)
        ensures
            !old(self).spec_categories().contains_key(category_id) ==> (r matches Err(e) && e@
                == "Category does not exist"@),
            old(self).spec_categories().contains_key(category_id) && !old(
                self,
            ).spec_notes().contains_key(note_id) ==> (r matches Err(e) && e@ == "Note not found"@),
            r is Err ==> final(self).spec_notes() == old(self).spec_notes(),
            r is Ok <==> old(self).spec_categories().contains_key(category_id) && old(
                self,
            ).spec_notes().contains_key(note_id),
            r is Ok ==> final(self).spec_notes() == old(
                self,
            ).spec_notes().insert(
                note_id,
                NoteView {
                    categories: old(self).spec_notes()[note_id].categories.remove(category_id),
                    ..old(self).spec_notes()[note_id]
                },
            ),
            final(self).spec_categories() == old(self).spec_categories(),
            old(self).wf() ==> final(self).wf(),
    {
        self.set_membership(note_id, category_id, false)
    }

    /// Whether the note exists and is in the category.
    pub fn has_category(&self, note_id: u128, category_id: u128) -> (r: bool)
        ensures
            r == (self.spec_notes().contains_key(note_id) && self.spec_notes()[note_id].categories.contains(
                category_id,
            )),
    {
        match self.notes.get(&note_id) {
            Some(n) => n.categories.contains(&category_id),
            None => false,
        }
    }

    /// Copies of the notes in the category, in the map's order.
    pub fn filter_by_category(&self, category_id: u128) -> (r: Vec<Note>)
        ensures
            exists|keys: Seq<u128>|
                #![trigger enumerates(keys, self.notes@.dom())]
                enumerates(keys, self.notes@.dom()) && note_views(r@) == listed_in_category(
                    self.spec_notes(),
                    keys,
                    category_id,
                ),
    {
        let keys = self.keys_list();
        let mut r: Vec<Note> = Vec::new();
        let mut i: usize = 0;
        while i < keys.len()
            invariant
                i <= keys@.len(),
                forall|j: int| 0 <= j < keys@.len() ==> self.notes@.contains_key(#[trigger] keys@[j]),
                note_views(r@) == keys@.subrange(0, i as int).map_values(
                    |k: u128| self.spec_notes()[k],
                ).filter(|n: NoteView| n.categories.contains(category_id)),
            decreases keys@.len() - i,
        {
            let n = self.notes.get(&keys[i]).unwrap();
            let ghost before = r@;
            let ghost pre = keys@.subrange(0, i as int).map_values(|k: u128| self.spec_notes()[k]);
            let ghost pre1 = keys@.subrange(0, i + 1).map_values(|k: u128| self.spec_notes()[k]);
            proof {
                assert(pre1 =~= pre.push(n@));
                reveal(Seq::filter);
                assert(pre1.drop_last() =~= pre);
            }
            if n.categories.contains(&category_id) {
                r.push(n.duplicate());
                proof {
                    assert(note_views(r@) =~= note_views(before).push(n@));
                }
            }
            i = i + 1;
        }
        assert(keys@.subrange(0, keys@.len() as int) =~= keys@);
        r
    }

    /// Copies of all categories by name; categories with the same name keep
    /// the map's order.
    pub fn get_categories(&self) -> (r: Vec<Category>)
        ensures
            exists|keys: Seq<u128>|
                #![trigger enumerates(keys, self.categories@.dom())]
                enumerates(keys, self.categories@.dom()) && is_stable_sort_of(
                    keys.map_values(|k: u128| self.spec_categories()[k]),
                    category_views(r@),
                    |a: CategoryView, b: CategoryView| by_name(a, b),
                ),
    {
        let keys = keys_of(&self.categories);
        let mut list: Vec<Category> = Vec::new();
        let mut i: usize = 0;
        while i < keys.len()
            invariant
                i <= keys@.len(),
                enumerates(keys@, self.categories@.dom()),
                category_views(list@) == keys@.subrange(0, i as int).map_values(
                    |k: u128| self.spec_categories()[k],
                ),
            decreases keys@.len() - i,
        {
            proof {
                assert(keys@.to_set().contains(keys@[i as int]));
            }
            let c = self.categories.get(&keys[i]).unwrap();
            let ghost before = list@;
            list.push(c.duplicate());
            proof {
                assert(category_views(list@) =~= category_views(before).push(c@));
                assert(keys@.subrange(0, i + 1).map_values(|k: u128| self.spec_categories()[k]) =~= keys@.subrange(0, i as int).map_values(|k: u128| self.spec_categories()[k]).push(self.spec_categories()[keys@[i as int]]));
            }
            i = i + 1;
        }
        assert(keys@.subrange(0, keys@.len() as int) =~= keys@);
        let ghost listed = list@;
        proof {
            let leq = |a: Category, b: Category| by_name(a@, b@);
            assert forall|a: Category, b: Category| #[trigger] leq(a, b) || leq(b, a) by {
                lemma_bytes_le_total(vstd::utf8::encode_utf8(a.name@), vstd::utf8::encode_utf8(b.name@));
            }
            assert forall|a: Category, b: Category, c: Category|
                #[trigger] leq(a, b) && #[trigger] leq(b, c) implies leq(a, c) by {
                lemma_bytes_le_transitive(
                    vstd::utf8::encode_utf8(a.name@),
                    vstd::utf8::encode_utf8(b.name@),
                    vstd::utf8::encode_utf8(c.name@),
                );
            }
            assert(total_preorder(leq));
        }
        let sorted = stable_sort_by(list, name_no_later, Ghost(|a: Category, b: Category| by_name(a@, b@)));
        proof {
            lemma_stable_sort_of_values(
                listed,
                sorted@,
                |c: Category| c@,
                |a: CategoryView, b: CategoryView| by_name(a, b),
                |a: Category, b: Category| by_name(a@, b@),
            );
            assert(listed.map_values(|c: Category| c@) == category_views(listed));
            assert(sorted@.map_values(|c: Category| c@) == category_views(sorted@));
        }
        sorted
    }
}

} // verus!
