//! The modifier-token parser: turns the text after a roll command into
//! [`Parameters`].

use vstd::prelude::*;
use crate::error::{Failure, RollError, result_view};
use crate::text::{i32_of, parse_i32};

verus! {

/// One modifier of a roll, in the order the player wrote it.
#[derive(Debug)]
pub enum Modifier {
    /// A fixed amount added to the roll.
    Number(i32),
    /// A stat of the active character, added (`sign == 1`) or subtracted (`sign == -1`).
    StatRef { sign: i32, stat: String },
    /// A manual result: replaces the running total and suppresses the dice.
    Override(i32),
}

/// What a roll command asks for.
#[derive(Debug)]
pub struct Parameters {
    pub modifiers: Vec<Modifier>,
    /// The character to roll as, where one is named explicitly.
    pub character: Option<String>,
    pub hope: bool,
    pub despair: bool,
}

pub enum ModifierModel {
    Number(int),
    StatRef { sign: int, stat: Seq<char> },
    Override(int),
}

pub struct ParamsModel {
    pub modifiers: Seq<ModifierModel>,
    pub character: Option<Seq<char>>,
    pub hope: bool,
    pub despair: bool,
}

impl View for Modifier {
    type V = ModifierModel;

    open spec fn view(&self) -> ModifierModel {
        match self {
            Modifier::Number(n) => ModifierModel::Number(*n as int),
            Modifier::StatRef { sign, stat } => ModifierModel::StatRef {
                sign: *sign as int,
                stat: stat@,
            },
            Modifier::Override(n) => ModifierModel::Override(*n as int),
        }
    }
}

pub open spec fn option_text(o: Option<String>) -> Option<Seq<char>> {
    match o {
        Some(s) => Some(s@),
        None => None,
    }
}

impl View for Parameters {
    type V = ParamsModel;

    open spec fn view(&self) -> ParamsModel {
        ParamsModel {
            modifiers: self.modifiers@.map_values(|m: Modifier| m@),
            character: option_text(self.character),
            hope: self.hope,
            despair: self.despair,
        }
    }
}

pub open spec fn no_params() -> ParamsModel {
    ParamsModel { modifiers: Seq::empty(), character: None, hope: false, despair: false }
}

pub open spec fn is_separator(c: char) -> bool {
    c == ',' || c == ' '
}

/// The pieces of `s` between separators, empty ones included: `n`
/// separators give `n + 1` pieces.
pub open spec fn pieces(s: Seq<char>) -> Seq<Seq<char>>
    decreases s.len(),
{
    if s.len() == 0 {
        seq![Seq::empty()]
    } else {
        let p = pieces(s.drop_last());
        if is_separator(s.last()) {
            p.push(Seq::empty())
        } else {
            p.update(p.len() - 1, p.last().push(s.last()))
        }
    }
}

pub open spec fn is_hope_word(t: Seq<char>) -> bool {
    t == "h"@ || t == "hope"@ || t == "a"@ || t == "adv"@
}

pub open spec fn is_despair_word(t: Seq<char>) -> bool {
    t == "d"@ || t == "despair"@ || t == "dis"@
}

/// What one token does to the parameters gathered so far.
pub open spec fn apply_token(p: ParamsModel, t: Seq<char>) -> Result<ParamsModel, Failure> {
    let q = ParamsModel {
        hope: p.hope || is_hope_word(t),
        despair: p.despair || is_despair_word(t),
        ..p
    };
    if t.len() > 0 && (t[0] == '+' || t[0] == '-') {
        let m = match i32_of(t) {
            Some(v) => ModifierModel::Number(v as int),
            None => ModifierModel::StatRef {
                sign: if t[0] == '-' {
                    -1
                } else {
                    1
                },
                stat: t.drop_first(),
            },
        };
        Ok(ParamsModel { modifiers: q.modifiers.push(m), ..q })
    } else if t.len() > 0 && t[0] == '=' {
        match i32_of(t.drop_first()) {
            Some(v) => Ok(
                ParamsModel { modifiers: q.modifiers.push(ModifierModel::Override(v as int)), ..q },
            ),
            None => Err(Failure::Parse(t.drop_first())),
        }
    } else if t.len() > 0 && t[0] == '@' {
        Ok(ParamsModel { character: Some(t.drop_first()), ..q })
    } else {
        Ok(q)
    }
}

/// The tokens applied left to right, stopping at the first failure.
pub open spec fn apply_tokens(ts: Seq<Seq<char>>) -> Result<ParamsModel, Failure>
    decreases ts.len(),
{
    if ts.len() == 0 {
        Ok(no_params())
    } else {
        match apply_tokens(ts.drop_last()) {
            Ok(p) => apply_token(p, ts.last()),
            Err(e) => Err(e),
        }
    }
}

/// The parameters that a command text asks for.
pub open spec fn parsed(s: Seq<char>) -> Result<ParamsModel, Failure> {
    apply_tokens(pieces(s))
}

proof fn lemma_pieces_nonempty(s: Seq<char>)
    ensures
        pieces(s).len() >= 1,
    decreases s.len(),
{
    if s.len() > 0 {
        lemma_pieces_nonempty(s.drop_last());
    }
}

/// The characters of `s`, one per element.
pub(crate) fn chars_of(s: &str) -> (v: Vec<char>)
    ensures
        v@ == s@,
{
    let n = s.unicode_len();
    let mut v: Vec<char> = Vec::new();
    let mut i: usize = 0;
    while i < n
        invariant
            n == s@.len(),
            i <= n,
            v@ == s@.subrange(0, i as int),
        decreases n - i,
    {
        v.push(s.get_char(i));
        i = i + 1;
        assert(v@ =~= s@.subrange(0, i as int));
    }
    assert(s@.subrange(0, n as int) =~= s@);
    v
}

fn is_word(t: &String, w: &str) -> (r: bool)
    ensures
        r == (t@ == w@),
{
    let lit = String::from_str(w);
    *t == lit
}

fn push_modifier(p: &mut Parameters, m: Modifier)
    ensures
        final(p)@ == (ParamsModel { modifiers: old(p)@.modifiers.push(m@), ..old(p)@ }),
{
    let ghost before = p@;
    p.modifiers.push(m);
    assert(p@.modifiers =~= before.modifiers.push(m@));
}

/// Applies the token `cs[lo..hi]`.
fn take_token(p: &mut Parameters, contents: &str, cs: &Vec<char>, lo: usize, hi: usize) -> (r: Result<(), RollError>)
    requires
        cs@ == contents@,
        lo <= hi <= cs@.len(),
    ensures
        match apply_token(old(p)@, cs@.subrange(lo as int, hi as int)) {
            Ok(q) => r is Ok && final(p)@ == q,
            Err(e) => r matches Err(f) && f@ == e,
        },
{
    let ghost t = cs@.subrange(lo as int, hi as int);
    let tok = contents.substring_char(lo, hi).to_owned();
    if is_word(&tok, "h") || is_word(&tok, "hope") || is_word(&tok, "a") || is_word(&tok, "adv") {
        p.hope = true;
    }
    if is_word(&tok, "d") || is_word(&tok, "despair") || is_word(&tok, "dis") {
        p.despair = true;
    }
    if lo == hi {
        return Ok(());
    }
    assert(t[0] == cs@[lo as int]);
    assert(t.drop_first() =~= cs@.subrange(lo + 1, hi as int));
    let first = cs[lo];
    if first == '+' || first == '-' {
        match parse_i32(cs, lo, hi) {
            Some(v) => push_modifier(p, Modifier::Number(v)),
            None => {
                let sign: i32 = if first == '-' {
                    -1
                } else {
                    1
                };
                let stat = contents.substring_char(lo + 1, hi).to_owned();
                push_modifier(p, Modifier::StatRef { sign, stat });
            },
        }
        Ok(())
    } else if first == '=' {
        match parse_i32(cs, lo + 1, hi) {
            Some(v) => {
                push_modifier(p, Modifier::Override(v));
                Ok(())
            },
            None => Err(RollError::Parse(contents.substring_char(lo + 1, hi).to_owned())),
        }
    } else if first == '@' {
        p.character = Some(contents.substring_char(lo + 1, hi).to_owned());
        Ok(())
    } else {
        Ok(())
    }
}

/// Parses the text of a roll command. Tokens are separated by spaces and
/// commas; `+N`/`-N` add a number, `+Stat`/`-Stat` a stat, `=N` overrides the
/// roll, `@Name` names the character, `h`/`hope`/`a`/`adv` ask for hope and
/// `d`/`despair`/`dis` for despair; anything else is ignored. Fails only on
/// an `=` token whose remainder is not an `i32`.
pub fn parameters(contents: &str) -> (r: Result<Parameters, RollError>)
    ensures
        result_view(r) == parsed(contents@),
{
    let cs = chars_of(contents);
    let n = cs.len();
    let mut p = Parameters { modifiers: Vec::new(), character: None, hope: false, despair: false };
    assert(p@.modifiers =~= Seq::<ModifierModel>::empty());
    let mut failure: Option<RollError> = None;
    let mut start: usize = 0;
    let mut i: usize = 0;
    proof {
        assert(cs@.subrange(0, 0) =~= Seq::<char>::empty());
        assert(pieces(Seq::<char>::empty()).drop_last() =~= Seq::<Seq<char>>::empty());
    }
    while i < n
        invariant
            cs@ == contents@,
            n == cs@.len(),
            start <= i <= n,
            pieces(cs@.subrange(0, i as int)).len() >= 1,
            pieces(cs@.subrange(0, i as int)).last() == cs@.subrange(start as int, i as int),
            apply_tokens(pieces(cs@.subrange(0, i as int)).drop_last()) == match failure {
                None => Ok::<ParamsModel, Failure>(p@),
                Some(e) => Err(e@),
            },
        decreases n - i,
    {
        let ghost prev = cs@.subrange(0, i as int);
        let ghost next = cs@.subrange(0, i + 1);
        assert(next.drop_last() =~= prev);
        assert(next.last() == cs@[i as int]);
        proof {
            lemma_pieces_nonempty(prev);
        }
        if cs[i] == ',' || cs[i] == ' ' {
            if failure.is_none() {
                match take_token(&mut p, contents, &cs, start, i) {
                    Ok(()) => {},
                    Err(e) => {
                        failure = Some(e);
                    },
                }
            }
            assert(pieces(next).drop_last() =~= pieces(prev));
            assert(pieces(prev).drop_last().push(pieces(prev).last()) =~= pieces(prev));
            start = i + 1;
            assert(cs@.subrange(start as int, i + 1) =~= Seq::<char>::empty());
        } else {
            assert(pieces(next).drop_last() =~= pieces(prev).drop_last());
            assert(cs@.subrange(start as int, i + 1) =~= cs@.subrange(start as int, i as int).push(cs@[i as int]));
        }
        i = i + 1;
    }
    assert(cs@.subrange(0, n as int) =~= contents@);
    let ghost all = pieces(contents@);
    assert(all.drop_last().push(all.last()) =~= all);
    match failure {
        Some(e) => Err(e),
        None => match take_token(&mut p, contents, &cs, start, n) {
            Ok(()) => Ok(p),
            Err(e) => Err(e),
        },
    }
}

} // verus!
