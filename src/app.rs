//! The application state driven by key events: the search editor with its
//! character cursor, the collection store and the table selection.

use vstd::prelude::*;
use vstd::string::StringSliceAdditionalSpecFns;
use crate::collection::{compute_view, view_of, CollectionStore, Entry, User};
use crate::text::{
    byte_len, byte_offset, byte_offset_of, char_width, lemma_encode_concat, lemma_encode_single,
    utf8_width,
};

verus! {

/// `t` with `c` put in at character position `k`.
pub open spec fn inserted(t: Seq<char>, k: int, c: char) -> Seq<char> {
    t.take(k).push(c) + t.skip(k)
}

/// `t` without the character just before position `k`.
pub open spec fn removed_before(t: Seq<char>, k: int) -> Seq<char> {
    t.take(k - 1) + t.skip(k)
}

/// Whether inserting `c` keeps the text within the largest size a `String` can have.
pub open spec fn insert_fits(t: Seq<char>, c: char) -> bool {
    byte_len(t) + char_width(c) <= isize::MAX
}

/// Relies on `String::insert`: puts `c` at byte position `idx`, which must be
/// a character boundary (it panics otherwise, and when the text would outgrow
/// `isize::MAX` bytes).
#[verifier::external_body]
fn insert_at(s: &mut String, idx: usize, c: char)
    requires
        exists|k: int| 0 <= k <= old(s)@.len() && idx == byte_offset(old(s)@, k),
        insert_fits(old(s)@, c),
    ensures
        forall|k: int|
            0 <= k <= old(s)@.len() && idx == byte_offset(old(s)@, k) ==> final(s)@ == inserted(
                old(s)@,
                k,
                c,
            ),
{
    s.insert(idx, c)
}

proof fn lemma_inserted_len(t: Seq<char>, k: int, c: char)
    requires
        0 <= k <= t.len(),
    ensures
        byte_len(inserted(t, k, c)) == byte_len(t) + char_width(c),
{
    assert(t =~= t.take(k) + t.skip(k));
    assert(t.take(k).push(c) =~= t.take(k) + seq![c]);
    lemma_encode_concat(t.take(k), t.skip(k));
    lemma_encode_concat(t.take(k), seq![c]);
    lemma_encode_concat(t.take(k).push(c), t.skip(k));
    lemma_encode_single(c);
}

proof fn lemma_removed_len(t: Seq<char>, k: int)
    requires
        0 < k <= t.len(),
    ensures
        byte_len(removed_before(t, k)) <= byte_len(t),
{
    assert(t =~= (t.take(k - 1) + seq![t[k - 1]]) + t.skip(k));
    lemma_encode_concat(t.take(k - 1) + seq![t[k - 1]], t.skip(k));
    lemma_encode_concat(t.take(k - 1), seq![t[k - 1]]);
    lemma_encode_concat(t.take(k - 1), t.skip(k));
}

/// The keys the application distinguishes.
#[derive(Debug, Clone, Copy, PartialEq, Eq)]
pub enum KeyCode {
    Char(char),
    Backspace,
    Left,
    Right,
    Esc,
    Other,
}

/// One key event: the key, whether Control is the only modifier held, and
/// whether this is a press (rather than a repeat or a release).
#[derive(Debug, Clone, Copy, PartialEq, Eq)]
pub struct KeyInput {
    pub code: KeyCode,
    pub control_only: bool,
    pub press: bool,
}

/// What the event loop does after a key.
#[derive(Debug, Clone, Copy, PartialEq, Eq)]
pub enum Flow {
    Continue,
    Quit,
}

/// Escape, or Control with `c`, ends the session.
pub open spec fn is_quit(key: KeyInput) -> bool {
    key.code == KeyCode::Esc || (key.code == KeyCode::Char('c') && key.control_only)
}

/// The search text and cursor after a key that does not quit.
pub open spec fn edit(t: Seq<char>, k: int, key: KeyInput) -> (Seq<char>, int) {
    if !key.press {
        (t, k)
    } else {
        match key.code {
            KeyCode::Char(c) => if insert_fits(t, c) {
                (inserted(t, k, c), k + 1)
            } else {
                (t, k)
            },
            KeyCode::Backspace => if k == 0 {
                (t, k)
            } else {
                (removed_before(t, k), k - 1)
            },
            KeyCode::Left => if k == 0 {
                (t, 0)
            } else {
                (t, k - 1)
            },
            KeyCode::Right => if k + 1 <= t.len() {
                (t, k + 1)
            } else {
                (t, t.len() as int)
            },
            _ => (t, k),
        }
    }
}

/// A selection kept within a view of `len` rows: dropped when the view is
/// empty, else moved up to the last row when it lies past it.
pub open spec fn clamped_selection(selected: Option<usize>, len: nat) -> Option<usize> {
    match selected {
        None => None,
        Some(s) => if len == 0 {
            None
        } else if s < len {
            Some(s)
        } else {
            Some((len - 1) as usize)
        },
    }
}

/// Keeps a selected row index within a view of `len` rows.
pub fn clamp_selection(selected: Option<usize>, len: usize) -> (r: Option<usize>)
    ensures
        r == clamped_selection(selected, len as nat),
{
    match selected {
        None => None,
        Some(s) => if len == 0 {
            None
        } else if s < len {
            Some(s)
        } else {
            Some(len - 1)
        },
    }
}

/// Whatever key arrives, the cursor stays within the search text.
pub proof fn cursor_stays_in_bounds(text: Seq<char>, cursor: int, key: KeyInput)
    requires
        0 <= cursor <= text.len(),
    ensures
        0 <= edit(text, cursor, key).1 <= edit(text, cursor, key).0.len(),
{
}

/// Inserting a character and then deleting the one before the advanced
/// cursor gives back the text and cursor as they were.
pub proof fn insert_then_delete_restores(text: Seq<char>, cursor: int, c: char)
    requires
        0 <= cursor <= text.len(),
    ensures
        removed_before(inserted(text, cursor, c), cursor + 1) == text,
        inserted(text, cursor, c).len() == text.len() + 1,
{
    let t2 = inserted(text, cursor, c);
    assert(t2.take(cursor) =~= text.take(cursor));
    assert(t2.skip(cursor + 1) =~= text.skip(cursor));
    assert(removed_before(t2, cursor + 1) =~= text);
}

/// The state of the application: the store, the search text with its
/// character cursor, and the selected row of the filtered view.
pub struct App {
    pub data: CollectionStore,
    pub search: String,
    pub character_index: usize,
    pub selected: Option<usize>,
}

impl App {
    /// The cursor lies within the text, and the text's size fits a `String`.
    pub open spec fn editor_wf(&self) -> bool {
        &&& self.character_index <= self.search@.len()
        &&& byte_len(self.search@) <= isize::MAX
    }

    /// The view of the current search text.
    pub open spec fn spec_view(&self) -> Seq<(User, Entry)> {
        view_of(self.data.spec_collections(), self.search@)
    }

    pub open spec fn wf(&self) -> bool {
        &&& self.editor_wf()
        &&& self.data.wf()
        &&& (self.selected matches Some(s) ==> s < self.spec_view().len())
    }

    /// A fresh session over this store: empty search, cursor at the start,
    /// nothing selected.
    pub fn new(data: CollectionStore) -> (r: App)
        requires
            data.wf(),
        ensures
            r.wf(),
            r.data == data,
            r.search@.len() == 0,
            r.character_index == 0,
            r.selected is None,
    {
        let r = App { data, search: String::new(), character_index: 0, selected: None };
        proof {
            assert(byte_len(r.search@) == 0) by {
                assert(r.search@ =~= Seq::<char>::empty());
            }
        }
        r
    }

    /// `new_cursor_pos`, moved back to the end of the text when it lies past it.
    pub fn clamp_cursor(&self, new_cursor_pos: usize) -> (r: usize)
        ensures
            r == if new_cursor_pos <= self.search@.len() {
                new_cursor_pos as int
            } else {
                self.search@.len() as int
            },
    {
        let n = self.search.as_str().unicode_len();
        if new_cursor_pos > n {
            n
        } else {
            new_cursor_pos
        }
    }

    /// Moves the cursor one character left, stopping at the start; a cursor
    /// past the end of the text lands on the end.
    pub fn move_cursor_left(&mut self)
        requires
            byte_len(old(self).search@) <= isize::MAX,
        ensures
            final(self).editor_wf(),
            final(self).search == old(self).search,
            final(self).data == old(self).data,
            final(self).selected == old(self).selected,
            old(self).character_index <= old(self).search@.len() + 1 ==> final(self).character_index
                == if old(self).character_index == 0 {
                0
            } else {
                old(self).character_index - 1
            },
            old(self).character_index > old(self).search@.len() + 1 ==> final(self).character_index
                == old(self).search@.len(),
    {
        let cursor_moved_left = self.character_index.saturating_sub(1);
        self.character_index = self.clamp_cursor(cursor_moved_left);
    }

    /// Moves the cursor one character right, stopping at the end.
    pub fn move_cursor_right(&mut self)
        requires
            old(self).editor_wf(),
        ensures
            final(self).editor_wf(),
            final(self).search == old(self).search,
            final(self).data == old(self).data,
            final(self).selected == old(self).selected,
            final(self).character_index == if old(self).character_index + 1
                <= old(self).search@.len() {
                old(self).character_index + 1
            } else {
                old(self).search@.len() as int
            },
    {
        proof {
            crate::text::lemma_len_le_byte_len(self.search@);
        }
        let cursor_moved_right = self.character_index.saturating_add(1);
        self.character_index = self.clamp_cursor(cursor_moved_right);
    }

    /// The byte offset of the cursor, found by scanning the characters.
    pub fn byte_index(&self) -> (r: usize)
        requires
            self.editor_wf(),
        ensures
            r == byte_offset(self.search@, self.character_index as int),
    {
        byte_offset_of(self.search.as_str(), self.character_index)
    }

    /// Inserts `new_char` at the cursor and moves the cursor past it.
    pub fn enter_char(&mut self, new_char: char)
        requires
            old(self).editor_wf(),
            insert_fits(old(self).search@, new_char),
        ensures
            final(self).editor_wf(),
            final(self).search@ == inserted(
                old(self).search@,
                old(self).character_index as int,
                new_char,
            ),
            final(self).character_index == old(self).character_index + 1,
            final(self).data == old(self).data,
            final(self).selected == old(self).selected,
    {
        let index = self.byte_index();
        insert_at(&mut self.search, index, new_char);
        proof {
            lemma_inserted_len(old(self).search@, old(self).character_index as int, new_char);
        }
        self.move_cursor_right();
    }

    /// Deletes the character before the cursor and moves the cursor left;
    /// does nothing with the cursor at the start.
    pub fn delete_char(&mut self)
        requires
            old(self).editor_wf(),
        ensures
            final(self).editor_wf(),
            old(self).character_index == 0 ==> final(self).search == old(self).search
                && final(self).character_index == 0,
            old(self).character_index != 0 ==> final(self).search@ == removed_before(
                old(self).search@,
                old(self).character_index as int,
            ) && final(self).character_index == old(self).character_index - 1,
            final(self).data == old(self).data,
            final(self).selected == old(self).selected,
    {
        let is_not_cursor_leftmost = self.character_index != 0;
        if is_not_cursor_leftmost {
            let current_index = self.character_index;
            let from_left_to_current_index = current_index - 1;
            let len = self.search.as_str().unicode_len();
            let before_char_to_delete = self.search.as_str().substring_char(
                0,
                from_left_to_current_index,
            );
            let after_char_to_delete = self.search.as_str().substring_char(current_index, len);
            let mut joined = String::from_str(before_char_to_delete);
            joined.append(after_char_to_delete);
            proof {
                assert(joined@ =~= removed_before(old(self).search@, current_index as int));
                lemma_removed_len(old(self).search@, current_index as int);
            }
            self.search = joined;
            self.move_cursor_left();
        }
    }

    /// The rows of the store that match the current search text.
    pub fn view(&self) -> (r: Vec<(User, Entry)>)
        requires
            self.data.wf(),
        ensures
            r@ == self.spec_view(),
    {
        compute_view(&self.data, &self.search)
    }

    /// Applies one key event. Escape or Control-`c` quits and changes nothing;
    /// a pressed character, backspace, left or right edits the search text
    /// and cursor; anything else is ignored. The selection is then kept
    /// within the new view.
    pub fn handle_key(&mut self, key: KeyInput) -> (r: Flow)
        requires
            old(self).wf(),
        ensures
            final(self).wf(),
            final(self).data == old(self).data,
            is_quit(key) ==> r == Flow::Quit && *final(self) == *old(self),
            !is_quit(key) ==> {
                &&& r == Flow::Continue
                &&& (final(self).search@, final(self).character_index as int) == edit(
                    old(self).search@,
                    old(self).character_index as int,
                    key,
                )
                &&& final(self).selected == clamped_selection(
                    old(self).selected,
                    final(self).spec_view().len(),
                )
            },
    {
        match key.code {
            KeyCode::Esc => {
                return Flow::Quit;
            },
            KeyCode::Char(c) => {
                if c == 'c' && key.control_only {
                    return Flow::Quit;
                }
            },
            _ => {},
        }
        if key.press {
            match key.code {
                KeyCode::Char(to_insert) => {
                    let text: &str = self.search.as_str();
                    let size = text.len();
                    proof {
                        assert(text.spec_bytes() == vstd::utf8::encode_utf8(text@));
                    }
                    let width = utf8_width(to_insert);
                    if size <= (isize::MAX as usize) - width {
                        self.enter_char(to_insert);
                    }
                },
                KeyCode::Backspace => {
                    self.delete_char();
                },
                KeyCode::Left => {
                    self.move_cursor_left();
                },
                KeyCode::Right => {
                    self.move_cursor_right();
                },
                _ => {},
            }
        }
        let n = compute_view(&self.data, &self.search).len();
        self.selected = clamp_selection(self.selected, n);
        Flow::Continue
    }
}

} // verus!
