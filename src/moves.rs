//! Moves: pre-authored actions whose narration depends on the outcome band
//! that a roll falls into, and the store of moves by name.

use vstd::prelude::*;
use crate::error::{Failure, RollError};
use crate::table::{
    table, unique_keys, find_key, lemma_table_absent, lemma_table_contains, lemma_table_get,
    lemma_table_update, lemma_table_insert_at,
};
use crate::text::{lex_lt, lemma_lex_irreflexive, lemma_lex_total, lemma_lex_transitive, text_lt};

verus! {

/// An inclusive condition on the sum of a roll.
#[derive(Clone, Copy, Debug, PartialEq, Eq, Structural)]
pub enum Matcher {
    /// The sum is at most the bound.
    AtMost(i32),
    /// The sum lies between the two bounds, both included.
    Between(i32, i32),
    /// The sum is at least the bound.
    AtLeast(i32),
}

/// A move: text around the roll, outcome bands in declaration order, and
/// the stat that the move adds by default (its name and sign).
#[derive(Debug)]
pub struct Move {
    pub preamble: Option<String>,
    pub postamble: Option<String>,
    pub options: Vec<(Matcher, String)>,
    pub stat: Option<(String, i32)>,
}

pub struct MoveModel {
    pub preamble: Option<Seq<char>>,
    pub postamble: Option<Seq<char>>,
    pub options: Seq<(Matcher, Seq<char>)>,
    pub stat: Option<(Seq<char>, i32)>,
}

impl View for Move {
    type V = MoveModel;

    open spec fn view(&self) -> MoveModel {
        MoveModel {
            preamble: match self.preamble {
                Some(s) => Some(s@),
                None => None,
            },
            postamble: match self.postamble {
                Some(s) => Some(s@),
                None => None,
            },
            options: self.options@.map_values(|b: (Matcher, String)| (b.0, b.1@)),
            stat: match self.stat {
                Some(s) => Some((s.0@, s.1)),
                None => None,
            },
        }
    }
}

/// Whether a band's condition holds of a sum.
pub open spec fn holds(m: Matcher, roll: int) -> bool {
    match m {
        Matcher::AtMost(b) => roll <= b,
        Matcher::Between(lo, hi) => lo <= roll && roll <= hi,
        Matcher::AtLeast(b) => roll >= b,
    }
}

/// The texts of the bands whose condition holds, in declaration order.
pub open spec fn matching_texts(bands: Seq<(Matcher, Seq<char>)>, roll: int) -> Seq<Seq<char>> {
    bands.filter(band_holds(roll)).map_values(band_text())
}

pub open spec fn band_holds(roll: int) -> spec_fn((Matcher, Seq<char>)) -> bool {
    |b: (Matcher, Seq<char>)| holds(b.0, roll)
}

pub open spec fn band_text() -> spec_fn((Matcher, Seq<char>)) -> Seq<char> {
    |b: (Matcher, Seq<char>)| b.1
}

/// Each text on a line of its own, each after a line break.
pub open spec fn lines(ts: Seq<Seq<char>>) -> Seq<char>
    decreases ts.len(),
{
    if ts.len() == 0 {
        Seq::empty()
    } else {
        lines(ts.drop_last()) + "\n"@ + ts.last()
    }
}

pub open spec fn opt_text(o: Option<Seq<char>>) -> Seq<char> {
    match o {
        Some(s) => s,
        None => Seq::empty(),
    }
}

/// The narration of a move: the preamble and a blank line (where there is a
/// preamble), the roll's narrative, the text of every band that holds of
/// the sum, and the postamble.
pub open spec fn move_text(m: MoveModel, dice: Seq<char>, roll: int) -> Seq<char> {
    let pre = opt_text(m.preamble);
    (if pre.len() != 0 {
        pre + "\n\n"@
    } else {
        pre
    }) + dice + "\n"@ + lines(matching_texts(m.options, roll)) + "\n"@ + opt_text(m.postamble)
}

proof fn lemma_filter_at(s: Seq<(Matcher, Seq<char>)>, p: spec_fn((Matcher, Seq<char>)) -> bool, k: int)
    requires
        0 <= k < s.len(),
        p(s[k]),
    ensures
        s.take(k).filter(p).len() < s.filter(p).len(),
        s.filter(p)[s.take(k).filter(p).len() as int] == s[k],
{
    reveal(Seq::filter);
    assert(s =~= s.take(k + 1) + s.skip(k + 1));
    Seq::filter_distributes_over_add(s.take(k + 1), s.skip(k + 1), p);
    assert(s.take(k + 1).drop_last() =~= s.take(k));
    assert(s.take(k + 1).filter(p) == s.take(k).filter(p).push(s[k]));
}

/// Every band that holds of the sum is rendered, in declaration order: of
/// two bands that both hold, the earlier one's text comes first.
pub proof fn lemma_bands_in_order(bands: Seq<(Matcher, Seq<char>)>, roll: int, i: int, j: int)
    requires
        0 <= i < j < bands.len(),
        holds(bands[i].0, roll),
        holds(bands[j].0, roll),
    ensures
        exists|a: int, b: int|
            0 <= a < b < matching_texts(bands, roll).len() && matching_texts(bands, roll)[a] == bands[i].1
                && matching_texts(bands, roll)[b] == bands[j].1,
{
    let p = band_holds(roll);
    lemma_filter_at(bands, p, i);
    lemma_filter_at(bands, p, j);
    let a = bands.take(i).filter(p).len() as int;
    let b = bands.take(j).filter(p).len() as int;
    lemma_filter_at(bands.take(j), p, i);
    assert(bands.take(j).take(i) =~= bands.take(i));
    assert(matching_texts(bands, roll)[a] == bands[i].1);
    assert(matching_texts(bands, roll)[b] == bands[j].1);
}

fn meets(m: Matcher, roll: i32) -> (r: bool)
    ensures
        r == holds(m, roll as int),
{
    match m {
        Matcher::AtMost(b) => roll <= b,
        Matcher::Between(lo, hi) => roll >= lo && roll <= hi,
        Matcher::AtLeast(b) => roll >= b,
    }
}

/// Renders a resolved roll against a move.
pub fn get_move_text(mv: &Move, dice_string: &str, roll: i32) -> (r: String)
    ensures
        r@ == move_text(mv@, dice_string@, roll as int),
{
    let ghost bands = mv@.options;
    let mut message = match &mv.preamble {
        Some(p) => p.clone(),
        None => String::new(),
    };
    if message.unicode_len() != 0 {
        message.append("\n\n");
    }
    message.append(dice_string);
    message.append("\n");
    let ghost head = message@;
    let mut i: usize = 0;
    reveal(Seq::filter);
    assert(bands.subrange(0, 0).filter(band_holds(roll as int)) =~= Seq::<(Matcher, Seq<char>)>::empty());
    assert(matching_texts(bands.subrange(0, 0), roll as int) =~= Seq::<Seq<char>>::empty());
    while i < mv.options.len()
        invariant
            bands == mv@.options,
            i <= mv.options@.len(),
            bands.len() == mv.options@.len(),
            message@ == head + lines(matching_texts(bands.subrange(0, i as int), roll as int)),
        decreases mv.options@.len() - i,
    {
        let ghost pre = bands.subrange(0, i as int);
        let ghost next = bands.subrange(0, i + 1);
        assert(next.drop_last() =~= pre);
        assert(next.last() == bands[i as int]);
        let ghost pred = band_holds(roll as int);
        let ghost f = band_text();
        assert(mv.options@[i as int].0 == bands[i as int].0);
        reveal(Seq::filter);
        assert(mv.options@[i as int].1@ == bands[i as int].1);
        if meets(mv.options[i].0, roll) {
            message.append("\n");
            message.append(mv.options[i].1.as_str());
            assert(next.filter(pred) == pre.filter(pred).push(bands[i as int]));
            assert(next.filter(pred).map_values(f) =~= pre.filter(pred).map_values(f).push(
                bands[i as int].1,
            ));
            assert(lines(matching_texts(next, roll as int)).len() >= 0);
            assert(matching_texts(next, roll as int).drop_last() =~= matching_texts(pre, roll as int));
        } else {
            assert(next.filter(pred) == pre.filter(pred));
        }
        i = i + 1;
    }
    assert(bands.subrange(0, i as int) =~= bands);
    message.append("\n");
    match &mv.postamble {
        Some(p) => message.append(p.as_str()),
        None => {},
    }
    assert(message@ =~= move_text(mv@, dice_string@, roll as int));
    message
}

/// All moves, by name.
pub struct MoveList {
    moves: Vec<(String, Move)>,
}

impl MoveList {
    pub closed spec fn entries(&self) -> Seq<(Seq<char>, MoveModel)> {
        self.moves@.map_values(|e: (String, Move)| (e.0@, e.1@))
    }

    /// The names, in the order of texts, with none twice.
    pub closed spec fn wf(&self) -> bool {
        forall|i: int, j: int|
            0 <= i < j < self.moves@.len() ==> lex_lt(
                #[trigger] self.moves@[i].0@,
                #[trigger] self.moves@[j].0@,
            )
    }

    /// The moves, one entry per name, in the order of names.
    pub fn moves(&self) -> (r: &Vec<(String, Move)>)
        ensures
            table(r@.map_values(|e: (String, Move)| (e.0@, e.1@))) == self@,
    {
        &self.moves
    }

    /// A list with no moves.
    pub fn empty() -> (r: MoveList)
        ensures
            r.wf(),
            r@ == Map::<Seq<char>, MoveModel>::empty(),
    {
        let r = MoveList { moves: Vec::new() };
        assert(r.entries() =~= Seq::<(Seq<char>, MoveModel)>::empty());
        r
    }

    proof fn lemma_unique(&self)
        requires
            self.wf(),
        ensures
            unique_keys(self.entries()),
    {
        assert forall|i: int, j: int| 0 <= i < j < self.entries().len() implies self.entries()[i].0
            != self.entries()[j].0 by {
            assert(lex_lt(self.moves@[i].0@, self.moves@[j].0@));
            lemma_lex_irreflexive(self.moves@[i].0@);
        }
    }
}

impl View for MoveList {
    type V = Map<Seq<char>, MoveModel>;

    closed spec fn view(&self) -> Map<Seq<char>, MoveModel> {
        table(self.entries())
    }
}

/// The names of all moves, in the order of texts.
pub fn get_moves(list: &MoveList) -> (r: Vec<String>)
    requires
        list.wf(),
    ensures
        forall|i: int, j: int| 0 <= i < j < r@.len() ==> lex_lt(r@[i]@, r@[j]@),
        forall|i: int| 0 <= i < r@.len() ==> list@.contains_key(#[trigger] r@[i]@),
        forall|k: Seq<char>| #[trigger] list@.contains_key(k) ==> exists|i: int| 0 <= i < r@.len() && r@[i]@ == k,
{
    let ghost s = list.entries();
    proof {
        list.lemma_unique();
    }
    let mut names: Vec<String> = Vec::new();
    let mut i: usize = 0;
    while i < list.moves.len()
        invariant
            s == list.entries(),
            list.wf(),
            unique_keys(s),
            i <= list.moves@.len(),
            names@.len() == i,
            forall|j: int| 0 <= j < i ==> (#[trigger] names@[j])@ == list.moves@[j].0@,
        decreases list.moves@.len() - i,
    {
        names.push(list.moves[i].0.clone());
        i = i + 1;
    }
    proof {
        assert forall|a: int, b: int| 0 <= a < b < names@.len() implies lex_lt(names@[a]@, names@[b]@) by {
            assert(lex_lt(list.moves@[a].0@, list.moves@[b].0@));
        }
        assert forall|a: int| 0 <= a < names@.len() implies list@.contains_key(#[trigger] names@[a]@) by {
            lemma_table_get(s, a);
        }
        assert forall|k: Seq<char>| #[trigger] list@.contains_key(k) implies exists|a: int|
            0 <= a < names@.len() && names@[a]@ == k by {
            lemma_table_contains(s, k);
            let a = choose|a: int| 0 <= a < s.len() && s[a].0 == k;
            assert(names@[a]@ == k);
        }
    }
    names
}

/// The move named `name`.
pub fn get_move<'a>(list: &'a MoveList, name: &str) -> (r: Result<&'a Move, RollError>)
    requires
        list.wf(),
    ensures
        list@.contains_key(name@) ==> (r matches Ok(m) && m@ == list@[name@]),
        !list@.contains_key(name@) ==> (r matches Err(e) && e@ == Failure::MoveNotFound(name@)),
{
    let ghost s = list.entries();
    proof {
        list.lemma_unique();
    }
    match find_key(&list.moves, name) {
        Some(j) => {
            proof {
                lemma_table_get(s, j as int);
            }
            Ok(&list.moves[j].1)
        },
        None => {
            proof {
                assert(forall|j: int| 0 <= j < s.len() ==> s[j].0 == list.moves@[j].0@);
                lemma_table_absent(s, name@);
            }
            Err(RollError::MoveNotFound(name.to_owned()))
        },
    }
}

/// Adds a move, or replaces the one of the same name.
pub fn add_move(list: &mut MoveList, name: &str, mov: Move)
    requires
        old(list).wf(),
    ensures
        final(list).wf(),
        final(list)@ == old(list)@.insert(name@, mov@),
{
    let ghost s = list.entries();
    let ghost m = mov@;
    proof {
        list.lemma_unique();
    }
    let mut p: usize = 0;
    while p < list.moves.len() && text_lt(list.moves[p].0.as_str(), name)
        invariant
            p <= list.moves@.len(),
            forall|j: int| 0 <= j < p ==> lex_lt(#[trigger] list.moves@[j].0@, name@),
        decreases list.moves@.len() - p,
    {
        p = p + 1;
    }
    let key = name.to_owned();
    if p < list.moves.len() && list.moves[p].0 == key {
        proof {
            lemma_table_update(s, p as int, m);
        }
        let (old_key, _) = list.moves.remove(p);
        list.moves.insert(p, (old_key, mov));
        assert(list.entries() =~= s.update(p as int, (s[p as int].0, m)));
        assert forall|i: int, j: int| 0 <= i < j < list.moves@.len() implies lex_lt(
            #[trigger] list.moves@[i].0@,
            #[trigger] list.moves@[j].0@,
        ) by {
            assert(list.moves@[i].0 == old(list).moves@[i].0);
            assert(list.moves@[j].0 == old(list).moves@[j].0);
        }
    } else {
        let ghost old_moves = list.moves@;
        proof {
            if p < old_moves.len() {
                lemma_lex_total(old_moves[p as int].0@, name@);
            }
            assert forall|j: int| p <= j < old_moves.len() implies lex_lt(name@, #[trigger] old_moves[j].0@) by {
                if j > p {
                    assert(lex_lt(old_moves[p as int].0@, old_moves[j].0@));
                    lemma_lex_transitive(name@, old_moves[p as int].0@, old_moves[j].0@);
                }
            }
        }
        list.moves.insert(p, (key, mov));
        assert(list.moves@ == old_moves.insert(p as int, (key, mov)));
        assert forall|i: int, j: int| 0 <= i < j < list.moves@.len() implies lex_lt(
            #[trigger] list.moves@[i].0@,
            #[trigger] list.moves@[j].0@,
        ) by {
            if j < p {
                assert(list.moves@[i] == old_moves[i] && list.moves@[j] == old_moves[j]);
            } else if j == p {
                assert(list.moves@[i] == old_moves[i]);
            } else if i < p {
                assert(list.moves@[i] == old_moves[i] && list.moves@[j] == old_moves[j - 1]);
                lemma_lex_transitive(old_moves[i].0@, name@, old_moves[j - 1].0@);
            } else if i == p {
                assert(list.moves@[j] == old_moves[j - 1]);
            } else {
                assert(list.moves@[i] == old_moves[i - 1] && list.moves@[j] == old_moves[j - 1]);
            }
        }
        assert(list.entries() =~= s.insert(p as int, (name@, m)));
        proof {
            list.lemma_unique();
            lemma_table_insert_at(s, p as int, name@, m);
        }
    }
}

} // verus!
