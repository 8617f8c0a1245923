use vstd::prelude::*;

use itertools::Itertools;

use crate::constraints::aggregate;
use crate::dictionary::{decoded_lines, lines, load_dictionary, texts, undecodable};
use crate::filter::{chars_of, candidate_pred, filter_words, length_pred, sample_words, SAMPLE_SIZE};
use crate::grid::{after_backspace, after_key, grid_empty, WordsModel};
use crate::letter::empty_letter;

verus! {

/// The words, one per line: a newline between each two, none at the end.
pub open spec fn joined_lines(ws: Seq<Seq<char>>) -> Seq<char>
    decreases ws.len(),
{
    if ws.len() == 0 {
        Seq::empty()
    } else if ws.len() == 1 {
        ws[0]
    } else {
        joined_lines(ws.drop_last()) + seq!['\n'] + ws.last()
    }
}

/// Relies on `itertools::Itertools::join`: it writes the first item, then for
/// each further item the separator and the item.
#[verifier::external_body]
fn join_lines(words: &Vec<String>) -> (r: String)
    ensures
        r@ == joined_lines(texts(words@)),
{
    words.iter().join("\n")
}

/// The key that deletes the last typed letter (a long leftwards arrow).
pub open spec fn is_backspace_key(key: Seq<char>) -> bool {
    key == seq!['\u{27f5}']
}

/// The key that asks for the candidate list.
pub open spec fn is_enter_key(key: Seq<char>) -> bool {
    key == seq!['E', 'n', 't', 'e', 'r']
}

/// The word searcher: the grid of guesses, the dictionary it narrows, and the
/// length of the target word.
pub struct AppState {
    pub words: WordsModel,
    pub nouns: Vec<String>,
    pub letter_count: usize,
    /// The number of dictionary lines skipped as not valid UTF-8.
    pub skipped_lines: usize,
}

/// The number of guess rows.
pub const ROW_COUNT: u8 = 5;

impl AppState {
    /// A searcher over the word list `nouns_bytes`, one word per line, for
    /// targets of `letter_count` letters, with an empty grid of `ROW_COUNT`
    /// rows.
    pub fn new(letter_count: u8, nouns_bytes: &[u8]) -> (r: AppState)
        ensures
            r.letter_count == letter_count,
            texts(r.nouns@) == decoded_lines(lines(nouns_bytes@)),
            r.skipped_lines == undecodable(lines(nouns_bytes@)),
            r.words.current_word_index == 0,
            r.words.words@.len() == ROW_COUNT,
            r.words.rows_have_len(letter_count as nat),
            forall|i: int, j: int|
                0 <= i < ROW_COUNT && 0 <= j < letter_count ==> r.words.rows()[i][j]
                    == empty_letter(),
    {
        let (nouns, skipped_lines) = load_dictionary(nouns_bytes);
        AppState {
            words: WordsModel::new(ROW_COUNT, letter_count),
            nouns,
            letter_count: letter_count as usize,
            skipped_lines,
        }
    }

    /// The candidate list for the grid as it stands: none while no letter
    /// has been typed, else the dictionary words consistent with what the
    /// grid has revealed, in dictionary order.
    pub open spec fn candidate_list(&self) -> Seq<String> {
        if grid_empty(self.words.rows()) {
            Seq::empty()
        } else {
            self.nouns@.filter(candidate_pred(self.letter_count as nat, aggregate(self.words.rows())))
        }
    }

    /// The candidate list, as `candidate_list` states it.
    pub fn candidates(&self) -> (r: Vec<String>)
        ensures
            r@ == self.candidate_list(),
    {
        if self.words.is_all_empty() {
            return Vec::new();
        }
        let cs = self.words.constraints();
        filter_words(&self.nouns, self.letter_count, &cs)
    }

    /// The candidates as one block of text, one word per line; empty while
    /// no letter has been typed.
    pub fn check_words(&self) -> (r: String)
        ensures
            r@ == joined_lines(texts(self.candidate_list())),
            grid_empty(self.words.rows()) ==> r@ == Seq::<char>::empty(),
    {
        let found = self.candidates();
        join_lines(&found)
    }

    /// The sample list as one block of text: the first `SAMPLE_SIZE` words of
    /// the target's length, in dictionary order, one per line.
    pub fn ranrom(&self) -> (r: String)
        ensures
            ({
                let fit = self.nouns@.filter(length_pred(self.letter_count as nat));
                r@ == joined_lines(texts(fit.take(vstd::math::min(SAMPLE_SIZE as int, fit.len() as int))))
            }),
    {
        let found = sample_words(&self.nouns, self.letter_count);
        join_lines(&found)
    }

    /// Handles a key from the keyboard: the backspace key removes a letter,
    /// `Enter` yields the candidate list as `check_words` gives it, and any
    /// other single character is typed into the grid. Other keys are ignored.
    pub fn on_key_pressed(&mut self, key: &str) -> (r: Option<String>)
        ensures
            final(self).nouns == old(self).nouns,
            final(self).letter_count == old(self).letter_count,
            final(self).skipped_lines == old(self).skipped_lines,
            is_enter_key(key@) ==> r is Some && r->0@ == joined_lines(texts(old(self).candidate_list())),
            !is_enter_key(key@) ==> r is None,
            ({
                let g = old(self).words.rows();
                let cur = old(self).words.current_word_index as int;
                let after = if is_backspace_key(key@) {
                    after_backspace(g, cur)
                } else if !is_enter_key(key@) && key@.len() == 1 {
                    after_key(g, cur, key@[0])
                } else {
                    (g, cur)
                };
                (final(self).words.rows(), final(self).words.current_word_index as int) == after
            }),
    {
        let k = chars_of(key);
        if k.len() == 1 && k[0] == '\u{27f5}' {
            assert(k@ =~= seq!['\u{27f5}']);
            self.words.remove_letter();
            return Option::None;
        }
        assert(!is_backspace_key(key@));
        if k.len() == 5 && k[0] == 'E' && k[1] == 'n' && k[2] == 't' && k[3] == 'e' && k[4] == 'r' {
            assert(k@ =~= seq!['E', 'n', 't', 'e', 'r']);
            return Option::Some(self.check_words());
        }
        assert(!is_enter_key(key@));
        if k.len() == 1 {
            self.words.add_letter(k[0]);
        }
        Option::None
    }

    /// Empties the grid; the candidate list that goes with it is empty.
    pub fn clear_all(&mut self) -> (r: String)
        ensures
            r@ == Seq::<char>::empty(),
            final(self).nouns == old(self).nouns,
            final(self).letter_count == old(self).letter_count,
            final(self).skipped_lines == old(self).skipped_lines,
            final(self).words.current_word_index == 0,
            final(self).words.rows().len() == old(self).words.rows().len(),
            forall|i: int|
                0 <= i < old(self).words.rows().len() ==> #[trigger] final(self).words.rows()[i].len()
                    == old(self).words.rows()[i].len(),
            forall|i: int, j: int|
                0 <= i < old(self).words.rows().len() && 0 <= j < old(self).words.rows()[i].len()
                    ==> final(self).words.rows()[i][j] == empty_letter(),
    {
        self.words.clear_all();
        String::new()
    }
}

} // verus!
