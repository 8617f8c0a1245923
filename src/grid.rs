use vstd::prelude::*;

use crate::letter::{cleared, empty_letter, set_to, LetterModel, LetterState};

verus! {

/// One guess row: a fixed number of letter slots.
pub struct WordModel {
    pub letters: Vec<LetterModel>,
}

/// Every slot of the row holds a letter.
pub open spec fn row_full(w: Seq<LetterModel>) -> bool {
    forall|i: int| 0 <= i < w.len() ==> w[i].state != LetterState::Empty
}

/// No slot of the row holds a letter.
pub open spec fn row_empty(w: Seq<LetterModel>) -> bool {
    forall|i: int| 0 <= i < w.len() ==> w[i].state == LetterState::Empty
}

/// Index of the first empty slot of the row, or its length if it is full.
pub open spec fn first_empty(w: Seq<LetterModel>) -> int
    decreases w.len(),
{
    if w.len() == 0 {
        0
    } else if w[0].state == LetterState::Empty {
        0
    } else {
        1 + first_empty(w.drop_first())
    }
}

/// Index of the last slot of the row that holds a letter, or -1 if none does.
pub open spec fn last_filled(w: Seq<LetterModel>) -> int
    decreases w.len(),
{
    if w.len() == 0 {
        -1
    } else if w.last().state != LetterState::Empty {
        w.len() - 1
    } else {
        last_filled(w.drop_last())
    }
}

/// The row after `c` is typed into it: into its first empty slot, if any.
pub open spec fn row_after_typing(w: Seq<LetterModel>, c: char) -> Seq<LetterModel> {
    let p = first_empty(w);
    if p < w.len() {
        w.update(p, set_to(w[p], c))
    } else {
        w
    }
}

/// The row after a backspace on it: its last filled slot is cleared, if any.
pub open spec fn row_after_backspace(w: Seq<LetterModel>) -> Seq<LetterModel> {
    let q = last_filled(w);
    if q >= 0 {
        w.update(q, cleared(w[q]))
    } else {
        w
    }
}

proof fn lemma_first_empty(w: Seq<LetterModel>)
    ensures
        0 <= first_empty(w) <= w.len(),
        forall|i: int| 0 <= i < first_empty(w) ==> w[i].state != LetterState::Empty,
        first_empty(w) < w.len() ==> w[first_empty(w)].state == LetterState::Empty,
    decreases w.len(),
{
    if w.len() > 0 && w[0].state != LetterState::Empty {
        lemma_first_empty(w.drop_first());
        assert forall|i: int| 0 <= i < first_empty(w) implies w[i].state != LetterState::Empty by {
            if i > 0 {
                assert(w[i] == w.drop_first()[i - 1]);
            }
        }
    }
}

proof fn lemma_last_filled(w: Seq<LetterModel>)
    ensures
        -1 <= last_filled(w) < w.len(),
        forall|i: int| last_filled(w) < i < w.len() ==> w[i].state == LetterState::Empty,
        last_filled(w) >= 0 ==> w[last_filled(w)].state != LetterState::Empty,
    decreases w.len(),
{
    if w.len() > 0 && w.last().state == LetterState::Empty {
        lemma_last_filled(w.drop_last());
        assert forall|i: int| last_filled(w) < i < w.len() implies w[i].state
            == LetterState::Empty by {
            if i < w.len() - 1 {
                assert(w[i] == w.drop_last()[i]);
            }
        }
    }
}

impl WordModel {
    pub fn new(letter_count: usize) -> (r: WordModel)
        ensures
            r.letters@.len() == letter_count,
            forall|i: int| 0 <= i < letter_count ==> r.letters@[i] == empty_letter(),
    {
        let mut letters: Vec<LetterModel> = Vec::new();
        let mut i: usize = 0;
        while i < letter_count
            invariant
                i <= letter_count,
                letters@.len() == i,
                forall|j: int| 0 <= j < i ==> letters@[j] == empty_letter(),
            decreases letter_count - i,
        {
            letters.push(LetterModel::new());
            i += 1;
        }
        WordModel { letters }
    }

    /// Whether every slot holds a letter.
    pub fn is_full(&self) -> (r: bool)
        ensures
            r == row_full(self.letters@),
    {
        let mut i: usize = 0;
        while i < self.letters.len()
            invariant
                i <= self.letters@.len(),
                forall|j: int| 0 <= j < i ==> self.letters@[j].state != LetterState::Empty,
            decreases self.letters@.len() - i,
        {
            if self.letters[i].state == LetterState::Empty {
                return false;
            }
            i += 1;
        }
        true
    }

    /// Types `c` into the first empty slot, if there is one.
    pub fn add_letter(&mut self, c: char)
        ensures
            final(self).letters@ == row_after_typing(old(self).letters@, c),
    {
        proof {
            lemma_first_empty(self.letters@);
        }
        let mut i: usize = 0;
        while i < self.letters.len()
            invariant
                i <= self.letters@.len(),
                self.letters@ == old(self).letters@,
                forall|j: int| 0 <= j < i ==> self.letters@[j].state != LetterState::Empty,
            decreases self.letters@.len() - i,
        {
            if self.letters[i].state == LetterState::Empty {
                proof {
                    lemma_first_empty(self.letters@);
                }
                let mut l = self.letters[i];
                l.set(c);
                self.letters.set(i, l);
                return;
            }
            i += 1;
        }
    }

    /// Clears the last slot that holds a letter, if there is one.
    pub fn remove_letter(&mut self)
        ensures
            final(self).letters@ == row_after_backspace(old(self).letters@),
    {
        proof {
            lemma_last_filled(self.letters@);
        }
        let mut i: usize = self.letters.len();
        while i > 0
            invariant
                i <= self.letters@.len(),
                self.letters@ == old(self).letters@,
                forall|j: int| i <= j < self.letters@.len() ==> self.letters@[j].state == LetterState::Empty,
            decreases i,
        {
            if self.letters[i - 1].state != LetterState::Empty {
                proof {
                    lemma_last_filled(self.letters@);
                }
                let mut l = self.letters[i - 1];
                l.clear();
                self.letters.set(i - 1, l);
                return;
            }
            i -= 1;
        }
    }

    /// Whether no slot holds a letter.
    pub fn is_empty(&self) -> (r: bool)
        ensures
            r == row_empty(self.letters@),
    {
        let mut i: usize = 0;
        while i < self.letters.len()
            invariant
                i <= self.letters@.len(),
                forall|j: int| 0 <= j < i ==> self.letters@[j].state == LetterState::Empty,
            decreases self.letters@.len() - i,
        {
            if self.letters[i].state != LetterState::Empty {
                return false;
            }
            i += 1;
        }
        true
    }
}

/// The guess grid: its rows and the row that typing goes into.
pub struct WordsModel {
    pub current_word_index: usize,
    pub words: Vec<WordModel>,
}

/// The grid after a key is typed with the cursor on row `r`: the row gets the
/// letter, and once it is full the cursor moves on to the next row, if any.
/// A cursor outside the grid changes nothing.
pub open spec fn after_key(g: Seq<Seq<LetterModel>>, r: int, c: char) -> (Seq<Seq<LetterModel>>, int) {
    if 0 <= r < g.len() {
        let w = row_after_typing(g[r], c);
        (g.update(r, w), if row_full(w) && r + 1 < g.len() { r + 1 } else { r })
    } else {
        (g, r)
    }
}

/// The grid after the keys of `cs` are typed in turn.
pub open spec fn after_keys(g: Seq<Seq<LetterModel>>, r: int, cs: Seq<char>) -> (Seq<Seq<LetterModel>>, int)
    decreases cs.len(),
{
    if cs.len() == 0 {
        (g, r)
    } else {
        let prev = after_keys(g, r, cs.drop_last());
        after_key(prev.0, prev.1, cs.last())
    }
}

/// The grid after a backspace with the cursor on row `r`: an empty row hands
/// the cursor back to the row before it (if any); otherwise the row loses its
/// last letter. A cursor outside the grid changes nothing.
pub open spec fn after_backspace(g: Seq<Seq<LetterModel>>, r: int) -> (Seq<Seq<LetterModel>>, int) {
    if 0 <= r < g.len() {
        if row_empty(g[r]) {
            (g, if r > 0 { r - 1 } else { r })
        } else {
            (g.update(r, row_after_backspace(g[r])), r)
        }
    } else {
        (g, r)
    }
}

/// The first `k` slots hold letters and the others are empty.
pub open spec fn filled_prefix(w: Seq<LetterModel>, k: int) -> bool {
    &&& 0 <= k <= w.len()
    &&& forall|i: int| 0 <= i < k ==> w[i].state != LetterState::Empty
    &&& forall|i: int| k <= i < w.len() ==> w[i].state == LetterState::Empty
}

/// No slot of any row holds a letter.
pub open spec fn grid_empty(g: Seq<Seq<LetterModel>>) -> bool {
    forall|i: int| 0 <= i < g.len() ==> row_empty(#[trigger] g[i])
}

impl WordsModel {
    /// Whether no slot of the grid holds a letter.
    pub fn is_all_empty(&self) -> (r: bool)
        ensures
            r == grid_empty(self.rows()),
    {
        let mut i: usize = 0;
        while i < self.words.len()
            invariant
                i <= self.words@.len(),
                forall|k: int| 0 <= k < i ==> row_empty(#[trigger] self.rows()[k]),
            decreases self.words@.len() - i,
        {
            if !self.words[i].is_empty() {
                assert(self.rows()[i as int] == self.words@[i as int].letters@);
                assert(!row_empty(self.rows()[i as int]));
                return false;
            }
            i += 1;
        }
        true
    }

    /// The grid's rows.
    pub open spec fn rows(&self) -> Seq<Seq<LetterModel>> {
        self.words@.map_values(|w: WordModel| w.letters@)
    }

    /// Every row has `n` slots.
    pub open spec fn rows_have_len(&self, n: nat) -> bool {
        forall|i: int| 0 <= i < self.words@.len() ==> self.words@[i].letters@.len() == n
    }

    /// A grid of `number_word` empty rows of `number_letters` slots, cursor on
    /// the first row.
    pub fn new(number_word: u8, number_letters: u8) -> (r: WordsModel)
        ensures
            r.current_word_index == 0,
            r.words@.len() == number_word,
            r.rows_have_len(number_letters as nat),
            forall|i: int, j: int|
                0 <= i < number_word && 0 <= j < number_letters ==> r.rows()[i][j]
                    == empty_letter(),
    {
        let mut words: Vec<WordModel> = Vec::new();
        let mut i: u8 = 0;
        while i < number_word
            invariant
                i <= number_word,
                words@.len() == i,
                forall|k: int| 0 <= k < i ==> words@[k].letters@.len() == number_letters,
                forall|k: int, j: int|
                    0 <= k < i && 0 <= j < number_letters ==> words@[k].letters@[j]
                        == empty_letter(),
            decreases number_word - i,
        {
            words.push(WordModel::new(number_letters as usize));
            i += 1;
        }
        WordsModel { current_word_index: 0, words }
    }

    /// Handles a typed letter: see `after_key`.
    pub fn add_letter(&mut self, key: char)
        ensures
            (final(self).rows(), final(self).current_word_index as int) == after_key(
                old(self).rows(),
                old(self).current_word_index as int,
                key,
            ),
    {
        let r = self.current_word_index;
        if r >= self.words.len() {
            return;
        }
        let mut word = self.words.remove(r);
        word.add_letter(key);
        let full = word.is_full();
        self.words.insert(r, word);
        assert(self.rows() =~= old(self).rows().update(
            r as int,
            row_after_typing(old(self).rows()[r as int], key),
        ));
        if full && r + 1 < self.words.len() {
            self.current_word_index = r + 1;
        }
    }

    /// Handles a backspace: see `after_backspace`.
    pub fn remove_letter(&mut self)
        ensures
            (final(self).rows(), final(self).current_word_index as int) == after_backspace(
                old(self).rows(),
                old(self).current_word_index as int,
            ),
    {
        let r = self.current_word_index;
        if r >= self.words.len() {
            return;
        }
        if self.words[r].is_empty() {
            if r > 0 {
                self.current_word_index = r - 1;
            }
            return;
        }
        let mut word = self.words.remove(r);
        word.remove_letter();
        self.words.insert(r, word);
        assert(self.rows() =~= old(self).rows().update(
            r as int,
            row_after_backspace(old(self).rows()[r as int]),
        ));
    }

    /// Sets the state of the slot at `row`, `letter_index` from a raw value,
    /// normalised as `LetterState::from_u32` does; a slot outside the grid is
    /// ignored.
    pub fn on_letter_state_changed(&mut self, row: usize, letter_index: usize, state: i32)
        ensures
            final(self).current_word_index == old(self).current_word_index,
            ({
                let g = old(self).rows();
                if row < g.len() && letter_index < g[row as int].len() {
                    final(self).rows() == g.update(
                        row as int,
                        g[row as int].update(
                            letter_index as int,
                            LetterModel {
                                state: crate::letter::state_of(state as int),
                                ..g[row as int][letter_index as int]
                            },
                        ),
                    )
                } else {
                    final(self).rows() == g
                }
            }),
    {
        if row >= self.words.len() || letter_index >= self.words[row].letters.len() {
            return;
        }
        let mut word = self.words.remove(row);
        let mut l = word.letters[letter_index];
        l.set_state(state);
        word.letters.set(letter_index, l);
        self.words.insert(row, word);
        assert(self.rows() =~= old(self).rows().update(
            row as int,
            old(self).rows()[row as int].update(
                letter_index as int,
                LetterModel {
                    state: crate::letter::state_of(state as int),
                    ..old(self).rows()[row as int][letter_index as int]
                },
            ),
        ));
    }

    /// Empties every slot of every row and puts the cursor back on the first
    /// row; the shape of the grid stays.
    pub fn clear_all(&mut self)
        ensures
            final(self).current_word_index == 0,
            final(self).rows().len() == old(self).rows().len(),
            forall|i: int|
                0 <= i < old(self).rows().len() ==> #[trigger] final(self).rows()[i].len()
                    == old(self).rows()[i].len(),
            forall|i: int, j: int|
                0 <= i < old(self).rows().len() && 0 <= j < old(self).rows()[i].len()
                    ==> final(self).rows()[i][j] == empty_letter(),
    {
        let n = self.words.len();
        let mut i: usize = 0;
        while i < n
            invariant
                i <= n,
                n == old(self).words@.len(),
                self.words@.len() == n,
                forall|k: int|
                    0 <= k < n ==> #[trigger] self.words@[k].letters@.len()
                        == old(self).words@[k].letters@.len(),
                forall|k: int, j: int|
                    0 <= k < i && 0 <= j < self.words@[k].letters@.len()
                        ==> self.words@[k].letters@[j] == empty_letter(),
            decreases n - i,
        {
            let len = self.words[i].letters.len();
            let word = WordModel::new(len);
            self.words.set(i, word);
            i += 1;
        }
        self.current_word_index = 0;
    }
}

/// A game: a fresh grid of five rows of five letters.
pub struct Game {
    pub words: WordsModel,
}

impl Game {
    pub fn new_empty() -> (r: Game)
        ensures
            r.words.current_word_index == 0,
            r.words.words@.len() == 5,
            r.words.rows_have_len(5),
            forall|i: int, j: int| 0 <= i < 5 && 0 <= j < 5 ==> r.words.rows()[i][j] == empty_letter(),
    {
        let words = WordsModel::new(5, 5);
        Game { words }
    }
}

/// A backspace on an empty first row changes nothing; one on a full last row
/// empties exactly its last slot and leaves the cursor where it is.
pub proof fn lemma_backspace_edges(g: Seq<Seq<LetterModel>>)
    requires
        g.len() > 0,
    ensures
        row_empty(g[0]) ==> after_backspace(g, 0) == (g, 0int),
        row_full(g.last()) && g.last().len() > 0 ==> {
            let r = g.len() - 1;
            let after = after_backspace(g, r);
            &&& after.1 == r
            &&& after.0 == g.update(r, g.last().update(g.last().len() - 1, empty_letter()))
        },
{
    let w = g.last();
    if row_full(w) && w.len() > 0 {
        assert(w.last().state != LetterState::Empty);
        assert(!row_empty(w));
        assert(last_filled(w) == w.len() - 1);
    }
}

proof fn lemma_first_empty_of_prefix(w: Seq<LetterModel>, k: int)
    requires
        filled_prefix(w, k),
    ensures
        first_empty(w) == k,
{
    lemma_first_empty(w);
    if first_empty(w) < k {
        assert(w[first_empty(w)].state != LetterState::Empty);
    } else if first_empty(w) > k {
        assert(w[k].state != LetterState::Empty);
    }
}

proof fn lemma_typing_prefix(g: Seq<Seq<LetterModel>>, r: int, cs: Seq<char>)
    requires
        0 <= r < g.len(),
        row_empty(g[r]),
        cs.len() < g[r].len(),
    ensures
        after_keys(g, r, cs).1 == r,
        after_keys(g, r, cs).0.len() == g.len(),
        after_keys(g, r, cs).0[r].len() == g[r].len(),
        filled_prefix(after_keys(g, r, cs).0[r], cs.len() as int),
    decreases cs.len(),
{
    if cs.len() > 0 {
        lemma_typing_prefix(g, r, cs.drop_last());
        let prev = after_keys(g, r, cs.drop_last());
        let w = prev.0[r];
        lemma_first_empty_of_prefix(w, cs.len() - 1);
        let w2 = row_after_typing(w, cs.last());
        assert(filled_prefix(w2, cs.len() as int));
        assert(w2[cs.len() as int].state == LetterState::Empty);
        assert(!row_full(w2));
    }
}

/// Typing as many letters as a row has slots into an empty row under the
/// cursor moves the cursor on by exactly one row, unless that row is the last.
pub proof fn lemma_typing_full_row(g: Seq<Seq<LetterModel>>, r: int, cs: Seq<char>)
    requires
        0 <= r < g.len(),
        row_empty(g[r]),
        cs.len() == g[r].len(),
        cs.len() > 0,
    ensures
        after_keys(g, r, cs).1 == if r + 1 < g.len() { r + 1 } else { r },
{
    lemma_typing_prefix(g, r, cs.drop_last());
    let prev = after_keys(g, r, cs.drop_last());
    let w = prev.0[r];
    lemma_first_empty_of_prefix(w, cs.len() - 1);
    let w2 = row_after_typing(w, cs.last());
    assert(filled_prefix(w2, cs.len() as int));
    assert(row_full(w2));
}

/// Clearing the grid leaves nothing behind: a cleared grid and a fresh one of
/// the same shape, with the cursor on the same row, are the same after the
/// same key.
pub proof fn lemma_cleared_grid_types_like_fresh(
    cleared_grid: Seq<Seq<LetterModel>>,
    fresh: Seq<Seq<LetterModel>>,
    r: int,
    c: char,
)
    requires
        cleared_grid.len() == fresh.len(),
        forall|i: int| 0 <= i < fresh.len() ==> #[trigger] cleared_grid[i].len() == fresh[i].len(),
        forall|i: int, j: int|
            0 <= i < fresh.len() && 0 <= j < fresh[i].len() ==> cleared_grid[i][j] == empty_letter()
                && fresh[i][j] == empty_letter(),
    ensures
        after_key(cleared_grid, r, c) == after_key(fresh, r, c),
{
    assert forall|i: int| 0 <= i < fresh.len() implies cleared_grid[i] == fresh[i] by {
        assert(cleared_grid[i] =~= fresh[i]);
    }
    assert(cleared_grid =~= fresh);
}

} // verus!
