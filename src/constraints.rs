use vstd::prelude::*;

use crate::grid::WordsModel;
use crate::letter::{LetterModel, LetterState};

verus! {

/// What a grid has revealed of the target word.
pub struct Constraints {
    /// Letters that do not occur in the target.
    pub missing: Set<char>,
    /// Letters that occur in the target, each with the columns where it is
    /// known not to sit.
    pub available: Map<char, Set<usize>>,
    /// Letters known to sit at one column.
    pub in_place: Map<char, usize>,
}

/// The first character of the lower-case mapping of `c`.
pub uninterp spec fn lower_of(c: char) -> char;

/// Relies on `char::to_lowercase`: the lower-case mapping of `c`, of which the
/// first character is kept, depends on `c` alone.
#[verifier::external_body]
pub(crate) fn lower_case(c: char) -> (r: char)
    ensures
        r == lower_of(c),
{
    c.to_lowercase().next().unwrap_or(c)
}

/// The character under which a slot is recorded: its letter in lower case, or
/// the null character for a slot judged without a letter.
pub open spec fn key_of(l: LetterModel) -> char {
    match l.character {
        Option::Some(c) => lower_of(c),
        Option::None => '\0',
    }
}

pub open spec fn no_constraints() -> Constraints {
    Constraints { missing: Set::empty(), available: Map::empty(), in_place: Map::empty() }
}

/// What one judged slot at column `col` adds to what is known.
pub open spec fn record(c: Constraints, l: LetterModel, col: usize) -> Constraints {
    let k = key_of(l);
    match l.state {
        LetterState::Empty => c,
        LetterState::Missing => Constraints { missing: c.missing.insert(k), ..c },
        LetterState::Available => Constraints {
            available: c.available.insert(
                k,
                if c.available.dom().contains(k) {
                    c.available[k]
                } else {
                    Set::empty()
                }.insert(col),
            ),
            ..c
        },
        LetterState::InPlace => Constraints { in_place: c.in_place.insert(k, col), ..c },
    }
}

/// What is known after the slots of row `w` are recorded in column order.
pub open spec fn record_row(c: Constraints, w: Seq<LetterModel>) -> Constraints
    decreases w.len(),
{
    if w.len() == 0 {
        c
    } else {
        record(record_row(c, w.drop_last()), w.last(), (w.len() - 1) as usize)
    }
}

/// What is known from the grid's rows, recorded in row-major order.
pub open spec fn aggregate(g: Seq<Seq<LetterModel>>) -> Constraints
    decreases g.len(),
{
    if g.len() == 0 {
        no_constraints()
    } else {
        record_row(aggregate(g.drop_last()), g.last())
    }
}

/// The map that a sequence of key-value entries stands for; a later entry of
/// a key overrides an earlier one.
pub open spec fn entries_map<V>(s: Seq<(char, V)>) -> Map<char, V>
    decreases s.len(),
{
    if s.len() == 0 {
        Map::empty()
    } else {
        entries_map(s.drop_last()).insert(s.last().0, s.last().1)
    }
}

pub open spec fn keys_unique<V>(s: Seq<(char, V)>) -> bool {
    forall|i: int, j: int| 0 <= i < s.len() && 0 <= j < s.len() && s[i].0 == s[j].0 ==> i == j
}

pub proof fn lemma_entries_map<V>(s: Seq<(char, V)>)
    requires
        keys_unique(s),
    ensures
        forall|k: char| entries_map(s).dom().contains(k) <==> exists|j: int| 0 <= j < s.len() && s[j].0 == k,
        forall|j: int| 0 <= j < s.len() ==> #[trigger] entries_map(s)[s[j].0] == s[j].1,
    decreases s.len(),
{
    if s.len() > 0 {
        let t = s.drop_last();
        assert(t.len() == s.len() - 1);
        assert(forall|i: int| 0 <= i < t.len() ==> t[i] == s[i]);
        lemma_entries_map(t);
        assert forall|k: char| entries_map(s).dom().contains(k) implies exists|j: int| 0 <= j < s.len() && s[j].0 == k by {
            if k != s.last().0 {
                assert(entries_map(t).dom().contains(k));
                let j = choose|j: int| 0 <= j < t.len() && t[j].0 == k;
                assert(t[j] == s[j]);
            } else {
                assert(s[s.len() - 1].0 == k);
            }
        }
        assert forall|k: char| (exists|j: int| 0 <= j < s.len() && s[j].0 == k) implies entries_map(s).dom().contains(k) by {
            let j = choose|j: int| 0 <= j < s.len() && s[j].0 == k;
            if j < s.len() - 1 {
                assert(t[j].0 == k);
                assert(entries_map(t).dom().contains(k));
            }
        }
        assert forall|j: int| 0 <= j < s.len() implies #[trigger] entries_map(s)[s[j].0] == s[j].1 by {
            assert(entries_map(s) == entries_map(t).insert(s.last().0, s.last().1));
            if j < s.len() - 1 {
                assert(t[j] == s[j]);
                assert(s[j].0 != s[s.len() - 1].0);
                assert(entries_map(t)[t[j].0] == t[j].1);
            }
        }
    }
}

proof fn lemma_entries_map_update<V>(s: Seq<(char, V)>, j: int, v: V)
    requires
        keys_unique(s),
        0 <= j < s.len(),
    ensures
        entries_map(s.update(j, (s[j].0, v))) == entries_map(s).insert(s[j].0, v),
    decreases s.len(),
{
    let s2 = s.update(j, (s[j].0, v));
    if j == s.len() - 1 {
        assert(s2.drop_last() =~= s.drop_last());
        assert(entries_map(s2) =~= entries_map(s).insert(s[j].0, v));
    } else {
        let t = s.drop_last();
        assert(s2.drop_last() =~= t.update(j, (t[j].0, v)));
        lemma_entries_map_update(t, j, v);
        assert(s[j].0 != s.last().0);
        assert(entries_map(s2) =~= entries_map(s).insert(s[j].0, v));
    }
}

/// The values that a sequence holds.
pub open spec fn elems<A>(s: Seq<A>) -> Set<A> {
    Set::new(|x: A| s.contains(x))
}

proof fn lemma_elems_push<A>(s: Seq<A>, x: A)
    ensures
        elems(s.push(x)) == elems(s).insert(x),
{
    assert forall|y: A| elems(s.push(x)).contains(y) implies elems(s).insert(x).contains(y) by {
        let i = choose|i: int| 0 <= i < s.push(x).len() && s.push(x)[i] == y;
        if i < s.len() {
            assert(s[i] == y);
        }
    }
    assert forall|y: A| elems(s).insert(x).contains(y) implies elems(s.push(x)).contains(y) by {
        if y == x {
            assert(s.push(x)[s.len() as int] == x);
        } else {
            let i = choose|i: int| 0 <= i < s.len() && s[i] == y;
            assert(s.push(x)[i] == y);
        }
    }
    assert(elems(s.push(x)) =~= elems(s).insert(x));
}

/// What a grid has revealed, as the lists that the filter reads. Each key
/// appears at most once in `available` and in `in_place`.
pub struct ConstraintSet {
    pub missing: Vec<char>,
    pub available: Vec<(char, Vec<usize>)>,
    pub in_place: Vec<(char, usize)>,
}

impl ConstraintSet {
    pub open spec fn available_entries(&self) -> Seq<(char, Set<usize>)> {
        self.available@.map_values(|e: (char, Vec<usize>)| (e.0, elems(e.1@)))
    }

    pub open spec fn wf(&self) -> bool {
        &&& keys_unique(self.available_entries())
        &&& keys_unique(self.in_place@)
    }

    pub open spec fn view(&self) -> Constraints {
        Constraints {
            missing: elems(self.missing@),
            available: entries_map(self.available_entries()),
            in_place: entries_map(self.in_place@),
        }
    }
}

/// Position of the entry with key `k`, if there is one.
fn find_key<V>(v: &Vec<(char, V)>, k: char) -> (r: Option<usize>)
    ensures
        match r {
            Option::Some(j) => j < v@.len() && v@[j as int].0 == k,
            Option::None => forall|j: int| 0 <= j < v@.len() ==> v@[j].0 != k,
        },
{
    let mut i: usize = 0;
    while i < v.len()
        invariant
            i <= v@.len(),
            forall|j: int| 0 <= j < i ==> v@[j].0 != k,
        decreases v@.len() - i,
    {
        if v[i].0 == k {
            return Option::Some(i);
        }
        i += 1;
    }
    Option::None
}

impl ConstraintSet {
    pub fn new() -> (r: ConstraintSet)
        ensures
            r.wf(),
            r@ == no_constraints(),
    {
        let r = ConstraintSet { missing: Vec::new(), available: Vec::new(), in_place: Vec::new() };
        assert(r@.missing =~= Set::empty());
        assert(r.available_entries() =~= Seq::empty());
        r
    }

    /// Records one judged slot at column `col`.
    pub fn record_letter(&mut self, l: LetterModel, col: usize)
        requires
            old(self).wf(),
        ensures
            final(self).wf(),
            final(self)@ == record(old(self)@, l, col),
    {
        let k = match l.character {
            Option::Some(c) => lower_case(c),
            Option::None => '\0',
        };
        match l.state {
            LetterState::Empty => {
                assert(self.wf());
            },
            LetterState::Missing => {
                self.missing.push(k);
                proof {
                    lemma_elems_push(old(self).missing@, k);
                }
                assert(self.wf());
                assert(self.available_entries() == old(self).available_entries());
            },
            LetterState::Available => {
                proof {
                    lemma_entries_map(self.available_entries());
                }
                match find_key(&self.available, k) {
                    Option::Some(j) => {
                        let ghost before = self.available_entries();
                        let (kk, mut positions) = self.available.remove(j);
                        positions.push(col);
                        let ghost ps = positions@;
                        self.available.insert(j, (kk, positions));
                        assert(self.available_entries() =~= before.update(
                            j as int,
                            (k, elems(ps)),
                        ));
                        proof {
                            lemma_elems_push(ps.drop_last(), col);
                            assert(ps.drop_last() =~= old(self).available@[j as int].1@);
                        }
                        proof {
                            lemma_entries_map_update(before, j as int, elems(ps));
                            let now = self.available_entries();
                            assert(forall|i: int| 0 <= i < now.len() ==> now[i].0 == before[i].0);
                            assert(keys_unique(now));
                        }
                    },
                    Option::None => {
                        let ghost before = self.available_entries();
                        let mut positions: Vec<usize> = Vec::new();
                        positions.push(col);
                        let ghost ps = positions@;
                        self.available.push((k, positions));
                        assert(self.available_entries().drop_last() =~= before);
                        assert(forall|i: int| 0 <= i < before.len() ==> before[i].0 == old(self).available@[i].0);
                        proof {
                            lemma_elems_push(Seq::<usize>::empty(), col);
                            assert(ps =~= Seq::<usize>::empty().push(col));
                            assert(elems(Seq::<usize>::empty()) =~= Set::<usize>::empty());
                            let now = self.available_entries();
                            assert(now.len() == before.len() + 1);
                            assert(now[now.len() - 1].0 == k);
                            assert(forall|i: int| 0 <= i < before.len() ==> now[i] == before[i]);
                            assert(keys_unique(now));
                        }
                    },
                }
                assert(self.in_place@ == old(self).in_place@);
                assert(self.wf());
            },
            LetterState::InPlace => {
                proof {
                    lemma_entries_map(self.in_place@);
                }
                match find_key(&self.in_place, k) {
                    Option::Some(j) => {
                        self.in_place.set(j, (k, col));
                        proof {
                            lemma_entries_map_update(old(self).in_place@, j as int, col);
                        }
                    },
                    Option::None => {
                        self.in_place.push((k, col));
                        assert(self.in_place@.drop_last() =~= old(self).in_place@);
                    },
                }
                assert(self.available_entries() == old(self).available_entries());
                assert(self.wf());
            },
        }
    }
}

impl WordsModel {
    /// Gathers what the grid has revealed, reading its slots in row-major
    /// order; the grid is left as it is.
    pub fn constraints(&self) -> (r: ConstraintSet)
        ensures
            r.wf(),
            r@ == aggregate(self.rows()),
    {
        let ghost g = self.rows();
        let mut cs = ConstraintSet::new();
        let mut r: usize = 0;
        while r < self.words.len()
            invariant
                g == self.rows(),
                r <= g.len(),
                cs.wf(),
                cs@ == aggregate(g.take(r as int)),
            decreases g.len() - r,
        {
            let ghost start = cs@;
            let letters = &self.words[r].letters;
            assert(letters@ == g[r as int]);
            let mut c: usize = 0;
            while c < letters.len()
                invariant
                    letters@ == g[r as int],
                    c <= letters@.len(),
                    cs.wf(),
                    cs@ == record_row(start, letters@.take(c as int)),
                decreases letters@.len() - c,
            {
                assert(letters@.take(c + 1).drop_last() =~= letters@.take(c as int));
                cs.record_letter(letters[c], c);
                c += 1;
            }
            assert(letters@.take(c as int) =~= letters@);
            assert(g.take(r + 1).drop_last() =~= g.take(r as int));
            r += 1;
        }
        assert(g.take(r as int) =~= g);
        cs
    }
}

/// Gathering is a function of the grid alone: two sets gathered from the same
/// grid, with no change in between, record the same constraints.
pub proof fn lemma_aggregate_stable(g: Seq<Seq<LetterModel>>, a: ConstraintSet, b: ConstraintSet)
    requires
        a@ == aggregate(g),
        b@ == aggregate(g),
    ensures
        a@ == b@,
        a@.missing == b@.missing,
        a@.available == b@.available,
        a@.in_place == b@.in_place,
{
}

} // verus!
