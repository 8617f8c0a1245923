use vstd::prelude::*;

use vstd::std_specs::iter::IteratorSpec;

use crate::constraints::{lower_case, lower_of, elems, entries_map, lemma_entries_map, ConstraintSet, Constraints};

verus! {

/// Folds the one letter variant with a diacritic (cyrillic small io) to its
/// base letter (cyrillic small ie); every other character is kept.
pub open spec fn fold_io(c: char) -> char {
    if c == '\u{451}' {
        '\u{435}'
    } else {
        c
    }
}

/// The form in which characters are compared: in lower case, with io folded
/// to ie.
pub open spec fn norm(c: char) -> char {
    fold_io(lower_of(c))
}

pub open spec fn normalized(w: Seq<char>) -> Seq<char> {
    w.map_values(|c: char| norm(c))
}

/// Index of the first occurrence of `c` in `w`, or the length of `w` if `c`
/// does not occur.
pub open spec fn first_index(w: Seq<char>, c: char) -> int
    decreases w.len(),
{
    if w.len() == 0 {
        0
    } else if w[0] == c {
        0
    } else {
        1 + first_index(w.drop_first(), c)
    }
}

/// Number of occurrences of `c` in `w`.
pub open spec fn count_of(w: Seq<char>, c: char) -> nat
    decreases w.len(),
{
    if w.len() == 0 {
        0
    } else {
        count_of(w.drop_last(), c) + if w.last() == c {
            1nat
        } else {
            0nat
        }
    }
}

/// The known-present letter `k`, excluded from the columns of `excluded`,
/// first occurs in the normalised word `nw` at a column not excluded.
pub open spec fn available_ok(nw: Seq<char>, k: char, excluded: Set<usize>) -> bool {
    let p = first_index(nw, norm(k));
    p < nw.len() && !excluded.contains(p as usize)
}

/// The letter `k`, known to sit at column `col`, first occurs in the
/// normalised word `nw` at that column, or occurs in it more than once.
pub open spec fn in_place_ok(nw: Seq<char>, k: char, col: usize) -> bool {
    let p = first_index(nw, norm(k));
    p < nw.len() && (p == col || count_of(nw, norm(k)) > 1)
}

/// Whether the word `w` is consistent with what is known, for a target of
/// length `n`. Words and constraint keys are both compared after `norm`, so
/// neither case nor io against ie tells two letters apart.
pub open spec fn is_candidate(w: Seq<char>, n: nat, cs: Constraints) -> bool {
    let nw = normalized(w);
    &&& w.len() == n
    &&& forall|i: int, m: char| 0 <= i < nw.len() && cs.missing.contains(m) ==> norm(m) != nw[i]
    &&& forall|k: char|
        #[trigger] cs.available.dom().contains(k) ==> available_ok(nw, k, cs.available[k])
    &&& forall|k: char| #[trigger] cs.in_place.dom().contains(k) ==> in_place_ok(nw, k, cs.in_place[k])
}

proof fn lemma_first_index(w: Seq<char>, c: char)
    ensures
        0 <= first_index(w, c) <= w.len(),
        forall|i: int| 0 <= i < first_index(w, c) ==> w[i] != c,
        first_index(w, c) < w.len() ==> w[first_index(w, c)] == c,
    decreases w.len(),
{
    if w.len() > 0 && w[0] != c {
        lemma_first_index(w.drop_first(), c);
        assert forall|i: int| 0 <= i < first_index(w, c) implies w[i] != c by {
            if i > 0 {
                assert(w[i] == w.drop_first()[i - 1]);
            }
        }
    }
}

fn norm_char(c: char) -> (r: char)
    ensures
        r == norm(c),
{
    let c = lower_case(c);
    if c == '\u{451}' {
        '\u{435}'
    } else {
        c
    }
}

/// The characters of `s`, normalised.
fn normalized_chars(s: &str) -> (r: Vec<char>)
    ensures
        r@ == normalized(s@),
{
    broadcast use vstd::string::axiom_spec_iter, vstd::string::next_postcondition;

    let mut it = s.chars();
    let mut v: Vec<char> = Vec::new();
    loop
        invariant
            v@.len() + it.remaining().len() == s@.len(),
            it.remaining() == s@.skip(v@.len() as int),
            v@ == normalized(s@.take(v@.len() as int)),
            it.decrease() is Some,
        ensures
            v@ == normalized(s@),
        decreases it.decrease()->0,
    {
        match it.next() {
            Option::Some(c) => {
                let ghost i = v@.len() as int;
                v.push(norm_char(c));
                assert(s@.take(i + 1) =~= s@.take(i).push(c));
                assert(v@ =~= normalized(s@.take(i + 1)));
                assert(s@.skip(i + 1) =~= s@.skip(i).drop_first());
            },
            Option::None => {
                assert(s@.take(v@.len() as int) =~= s@);
                break;
            },
        }
    }
    v
}

/// The characters of `s`.
pub fn chars_of(s: &str) -> (r: Vec<char>)
    ensures
        r@ == s@,
{
    broadcast use vstd::string::axiom_spec_iter, vstd::string::next_postcondition;

    let mut it = s.chars();
    let mut v: Vec<char> = Vec::new();
    loop
        invariant
            v@.len() + it.remaining().len() == s@.len(),
            it.remaining() == s@.skip(v@.len() as int),
            v@ == s@.take(v@.len() as int),
            it.decrease() is Some,
        ensures
            v@ == s@,
        decreases it.decrease()->0,
    {
        match it.next() {
            Option::Some(c) => {
                let ghost i = v@.len() as int;
                v.push(c);
                assert(s@.take(i + 1) =~= s@.take(i).push(c));
                assert(s@.skip(i + 1) =~= s@.skip(i).drop_first());
            },
            Option::None => {
                assert(s@.take(v@.len() as int) =~= s@);
                break;
            },
        }
    }
    v
}

fn index_of(w: &Vec<char>, c: char) -> (r: usize)
    ensures
        r == first_index(w@, c),
{
    proof {
        lemma_first_index(w@, c);
    }
    let mut i: usize = 0;
    while i < w.len()
        invariant
            i <= w@.len(),
            forall|j: int| 0 <= j < i ==> w@[j] != c,
            0 <= first_index(w@, c) <= w@.len(),
            forall|j: int| 0 <= j < first_index(w@, c) ==> w@[j] != c,
            first_index(w@, c) < w@.len() ==> w@[first_index(w@, c)] == c,
        decreases w@.len() - i,
    {
        if w[i] == c {
            return i;
        }
        i += 1;
    }
    i
}

fn count_in(w: &Vec<char>, c: char) -> (r: usize)
    ensures
        r == count_of(w@, c),
{
    let mut i: usize = 0;
    let mut n: usize = 0;
    while i < w.len()
        invariant
            i <= w@.len(),
            n == count_of(w@.take(i as int), c),
            n <= i,
        decreases w@.len() - i,
    {
        assert(w@.take(i + 1).drop_last() =~= w@.take(i as int));
        if w[i] == c {
            n += 1;
        }
        i += 1;
    }
    assert(w@.take(i as int) =~= w@);
    n
}

fn contains_pos(v: &Vec<usize>, p: usize) -> (r: bool)
    ensures
        r == v@.contains(p),
{
    let mut i: usize = 0;
    while i < v.len()
        invariant
            i <= v@.len(),
            forall|j: int| 0 <= j < i ==> v@[j] != p,
        decreases v@.len() - i,
    {
        if v[i] == p {
            return true;
        }
        i += 1;
    }
    false
}

/// Whether `word` is a candidate for a target of `letter_count` letters,
/// given what `cs` records.
pub fn is_candidate_word(word: &str, letter_count: usize, cs: &ConstraintSet) -> (r: bool)
    requires
        cs.wf(),
    ensures
        r == is_candidate(word@, letter_count as nat, cs@),
{
    let nw = normalized_chars(word);
    if nw.len() != letter_count {
        return false;
    }
    let mut j: usize = 0;
    while j < cs.missing.len()
        invariant
            nw@ == normalized(word@),
            j <= cs.missing@.len(),
            forall|jj: int, i: int|
                0 <= jj < j && 0 <= i < nw@.len() ==> norm(cs.missing@[jj]) != nw@[i],
        decreases cs.missing@.len() - j,
    {
        let m = norm_char(cs.missing[j]);
        let p = index_of(&nw, m);
        proof {
            lemma_first_index(nw@, m);
        }
        if p < nw.len() {
            assert(elems(cs.missing@).contains(cs.missing@[j as int]));
            return false;
        }
        j += 1;
    }
    let ghost av = cs.available_entries();
    proof {
        lemma_entries_map(av);
    }
    let mut j: usize = 0;
    while j < cs.available.len()
        invariant
            nw@ == normalized(word@),
            av == cs.available_entries(),
            cs.wf(),
            j <= av.len(),
            forall|jj: int| 0 <= jj < j ==> available_ok(nw@, #[trigger] av[jj].0, av[jj].1),
        decreases av.len() - j,
    {
        let k = cs.available[j].0;
        let p = index_of(&nw, norm_char(k));
        assert(av[j as int].0 == k && av[j as int].1 == elems(cs.available@[j as int].1@));
        proof {
            lemma_first_index(nw@, norm(k));
        }
        proof {
            lemma_entries_map(av);
        }
        if p == nw.len() {
            assert(cs@.available.dom().contains(av[j as int].0));
            return false;
        }
        if contains_pos(&cs.available[j].1, p) {
            assert(cs@.available.dom().contains(av[j as int].0));
            assert(cs@.available[av[j as int].0] == av[j as int].1);
            return false;
        }
        assert(!elems(cs.available@[j as int].1@).contains(p));
        assert(available_ok(nw@, av[j as int].0, av[j as int].1));
        j += 1;
    }
    let ghost ip = cs.in_place@;
    proof {
        lemma_entries_map(ip);
    }
    let mut j: usize = 0;
    while j < cs.in_place.len()
        invariant
            nw@ == normalized(word@),
            ip == cs.in_place@,
            cs.wf(),
            j <= ip.len(),
            forall|jj: int| 0 <= jj < j ==> in_place_ok(nw@, #[trigger] ip[jj].0, ip[jj].1),
        decreases ip.len() - j,
    {
        let k = norm_char(cs.in_place[j].0);
        let p = index_of(&nw, k);
        proof {
            lemma_first_index(nw@, k);
        }
        proof {
            lemma_entries_map(ip);
        }
        if p == nw.len() {
            assert(cs@.in_place.dom().contains(ip[j as int].0));
            return false;
        }
        if p != cs.in_place[j].1 && count_in(&nw, k) <= 1 {
            assert(cs@.in_place.dom().contains(ip[j as int].0));
            assert(cs@.in_place[ip[j as int].0] == ip[j as int].1);
            return false;
        }
        assert(in_place_ok(nw@, ip[j as int].0, ip[j as int].1));
        j += 1;
    }
    proof {
        lemma_entries_map(av);
        lemma_entries_map(ip);
    }
    assert forall|k: char| #[trigger] cs@.available.dom().contains(k) implies available_ok(
        nw@,
        k,
        cs@.available[k],
    ) by {
        let jj = choose|jj: int| 0 <= jj < av.len() && av[jj].0 == k;
        assert(available_ok(nw@, av[jj].0, av[jj].1));
    }
    assert forall|k: char| #[trigger] cs@.in_place.dom().contains(k) implies in_place_ok(
        nw@,
        k,
        cs@.in_place[k],
    ) by {
        let jj = choose|jj: int| 0 <= jj < ip.len() && ip[jj].0 == k;
        assert(in_place_ok(nw@, ip[jj].0, ip[jj].1));
    }
    true
}

pub open spec fn candidate_pred(n: nat, cs: Constraints) -> spec_fn(String) -> bool {
    |w: String| is_candidate(w@, n, cs)
}

pub open spec fn length_pred(n: nat) -> spec_fn(String) -> bool {
    |w: String| w@.len() == n
}

/// The words of `nouns` that are candidates, in their order.
pub fn filter_words(nouns: &Vec<String>, letter_count: usize, cs: &ConstraintSet) -> (r: Vec<
    String,
>)
    requires
        cs.wf(),
    ensures
        r@ == nouns@.filter(candidate_pred(letter_count as nat, cs@)),
{
    let ghost pred = candidate_pred(letter_count as nat, cs@);
    let mut r: Vec<String> = Vec::new();
    let mut i: usize = 0;
    while i < nouns.len()
        invariant
            i <= nouns@.len(),
            cs.wf(),
            pred == candidate_pred(letter_count as nat, cs@),
            r@ == nouns@.take(i as int).filter(pred),
        decreases nouns@.len() - i,
    {
        let ghost t = nouns@.take(i + 1);
        proof {
            assert(t.drop_last() =~= nouns@.take(i as int));
            assert(t.last() == nouns@[i as int]);
            reveal(Seq::filter);
            assert(t.filter(pred) == if pred(nouns@[i as int]) {
                nouns@.take(i as int).filter(pred).push(nouns@[i as int])
            } else {
                nouns@.take(i as int).filter(pred)
            });
        }
        let keep = is_candidate_word(nouns[i].as_str(), letter_count, cs);
        assert(keep == pred(nouns@[i as int]));
        if keep {
            r.push(nouns[i].clone());
        }
        i += 1;
    }
    assert(nouns@.take(i as int) =~= nouns@);
    r
}

/// The most words that the sample mode lists.
pub const SAMPLE_SIZE: usize = 500;

/// The words of `nouns` with exactly `letter_count` characters.
pub open spec fn of_length(nouns: Seq<String>, letter_count: nat) -> Seq<String> {
    nouns.filter(length_pred(letter_count))
}

/// The first words of `nouns` that have `letter_count` characters, at most
/// `SAMPLE_SIZE` of them, in their order and with no other filter.
pub fn sample_words(nouns: &Vec<String>, letter_count: usize) -> (r: Vec<String>)
    ensures
        r@ == of_length(nouns@, letter_count as nat).take(
            vstd::math::min(SAMPLE_SIZE as int, of_length(nouns@, letter_count as nat).len() as int),
        ),
{
    let ghost pred = length_pred(letter_count as nat);
    let mut r: Vec<String> = Vec::new();
    let mut i: usize = 0;
    while i < nouns.len() && r.len() < SAMPLE_SIZE
        invariant
            i <= nouns@.len(),
            pred == length_pred(letter_count as nat),
            r@ == nouns@.take(i as int).filter(pred),
            r@.len() <= SAMPLE_SIZE,
        decreases nouns@.len() - i,
    {
        let ghost t = nouns@.take(i + 1);
        proof {
            assert(t.drop_last() =~= nouns@.take(i as int));
            assert(t.last() == nouns@[i as int]);
            reveal(Seq::filter);
            assert(t.filter(pred) == if pred(nouns@[i as int]) {
                nouns@.take(i as int).filter(pred).push(nouns@[i as int])
            } else {
                nouns@.take(i as int).filter(pred)
            });
        }
        let chars = normalized_chars(nouns[i].as_str());
        assert(chars@.len() == nouns@[i as int]@.len());
        assert((chars.len() == letter_count) == pred(nouns@[i as int]));
        if chars.len() == letter_count {
            r.push(nouns[i].clone());
        }
        i += 1;
    }
    proof {
        lemma_filter_split(nouns@, pred, i as int);
        let a = nouns@.take(i as int).filter(pred);
        let b = nouns@.skip(i as int).filter(pred);
        assert(of_length(nouns@, letter_count as nat) == a + b);
        if i == nouns@.len() {
            assert(nouns@.skip(i as int) =~= Seq::<String>::empty());
            reveal(Seq::filter);
            assert(b =~= Seq::<String>::empty());
        }
        assert((a + b).take(r@.len() as int) =~= a);
    }
    r
}

/// Filtering splits at any point of the sequence.
proof fn lemma_filter_split(s: Seq<String>, pred: spec_fn(String) -> bool, i: int)
    requires
        0 <= i <= s.len(),
    ensures
        s.filter(pred) == s.take(i).filter(pred) + s.skip(i).filter(pred),
{
    assert(s =~= s.take(i) + s.skip(i));
    Seq::filter_distributes_over_add(s.take(i), s.skip(i), pred);
}

/// Filtering twice with the same predicate gives what filtering once gives.
pub proof fn lemma_filter_idempotent(s: Seq<String>, pred: spec_fn(String) -> bool)
    ensures
        s.filter(pred).filter(pred) == s.filter(pred),
    decreases s.len(),
{
    reveal(Seq::filter);
    if s.len() > 0 {
        lemma_filter_idempotent(s.drop_last(), pred);
        let f = s.drop_last().filter(pred);
        if pred(s.last()) {
            assert(f.push(s.last()).drop_last() =~= f);
        }
    }
}

/// Filtering an already filtered list of candidates with the same constraints
/// hands it back unchanged.
pub proof fn lemma_candidates_idempotent(nouns: Seq<String>, letter_count: nat, cs: Constraints)
    ensures
        nouns.filter(candidate_pred(letter_count, cs)).filter(candidate_pred(letter_count, cs))
            == nouns.filter(candidate_pred(letter_count, cs)),
{
    lemma_filter_idempotent(nouns, candidate_pred(letter_count, cs));
}

} // verus!
