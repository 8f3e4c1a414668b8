//! The roll resolver: replays the modifiers, rolls the dice (two, or three
//! with one dropped under hope or despair) and writes the roll's narrative.

use vstd::prelude::*;
use crate::characters::{CharConfig, CharStore, active_character, stat_value, get_stat, get_current_char};
use crate::error::{Failure, RollError, result_view};
use crate::parameters::{Modifier, ModifierModel, Parameters, ParamsModel};
use crate::text::{decimal, push_int};

verus! {

/// The lowest face of a die.
pub const DIE_LOW: i32 = 1;

/// One past the highest face of a die: faces run from 1 to 5.
pub const DIE_END: i32 = 6;

/// The running state of a replay of the modifiers.
pub struct Tally {
    pub total: int,
    pub text: Seq<char>,
    pub dice: bool,
}

pub open spec fn fits_i32(v: int) -> bool {
    i32::MIN <= v <= i32::MAX
}

/// What one modifier does to the running tally.
pub open spec fn modifier_step(
    t: Tally,
    m: ModifierModel,
    cfg: CharStore,
    character: Option<Seq<char>>,
    user: u64,
) -> Result<Tally, Failure> {
    match m {
        ModifierModel::Number(n) => if fits_i32(t.total + n) {
            Ok(Tally { total: t.total + n, text: t.text + "+"@ + decimal(n), dice: t.dice })
        } else {
            Err(Failure::Overflow)
        },
        ModifierModel::StatRef { sign, stat } => match stat_value(cfg, character, user, stat) {
            Err(e) => Err(e),
            Ok(v) => {
                let c = sign * v;
                if fits_i32(c) && fits_i32(t.total + c) {
                    Ok(
                        Tally {
                            total: t.total + c,
                            text: t.text + (if sign > 0 {
                                "+"@
                            } else {
                                "-"@
                            }) + stat + " ["@ + decimal(c) + "]"@,
                            dice: t.dice,
                        },
                    )
                } else {
                    Err(Failure::Overflow)
                }
            },
        },
        ModifierModel::Override(n) => Ok(
            Tally { total: n, text: "manually input "@ + decimal(n), dice: false },
        ),
    }
}

pub open spec fn start_tally() -> Tally {
    Tally { total: 0, text: Seq::empty(), dice: true }
}

/// The modifiers replayed left to right, stopping at the first failure.
pub open spec fn replay(
    ms: Seq<ModifierModel>,
    cfg: CharStore,
    character: Option<Seq<char>>,
    user: u64,
) -> Result<Tally, Failure>
    decreases ms.len(),
{
    if ms.len() == 0 {
        Ok(start_tally())
    } else {
        match replay(ms.drop_last(), cfg, character, user) {
            Ok(t) => modifier_step(t, ms.last(), cfg, character, user),
            Err(e) => Err(e),
        }
    }
}

pub open spec fn min3(a: int, b: int, c: int) -> int {
    if a <= b && a <= c {
        a
    } else if b <= c {
        b
    } else {
        c
    }
}

pub open spec fn max3(a: int, b: int, c: int) -> int {
    if a >= b && a >= c {
        a
    } else if b >= c {
        b
    } else {
        c
    }
}

/// The die that hope or despair drops.
pub open spec fn dropped_die(p: ParamsModel, d: (int, int, int)) -> int {
    if p.hope {
        min3(d.0, d.1, d.2)
    } else {
        max3(d.0, d.1, d.2)
    }
}

/// What the dice add: both base dice, or the two kept of three.
pub open spec fn dice_sum(p: ParamsModel, d: (int, int, int)) -> int {
    if p.hope || p.despair {
        d.0 + d.1 + d.2 - dropped_die(p, d)
    } else {
        d.0 + d.1
    }
}

pub open spec fn dice_text(p: ParamsModel, d: (int, int, int)) -> Seq<char> {
    if p.hope || p.despair {
        "(Rolled "@ + decimal(d.0) + ", "@ + decimal(d.1) + " and "@ + decimal(d.2) + "; dropped "@
            + decimal(dropped_die(p, d)) + ")"@
    } else {
        "(Rolled "@ + decimal(d.0) + " and "@ + decimal(d.1) + ")"@
    }
}

pub open spec fn has_override(ms: Seq<ModifierModel>) -> bool {
    exists|i: int| 0 <= i < ms.len() && ms[i] is Override
}

/// How many dice a roll draws: none once an override is given, three under
/// hope or despair, else two.
pub open spec fn dice_count(p: ParamsModel) -> nat {
    if has_override(p.modifiers) {
        0
    } else if p.hope || p.despair {
        3
    } else {
        2
    }
}

/// The sum and narrative of a roll, given what the dice showed (`d.2` is
/// read only under hope or despair, and no die is read once an override is
/// given).
pub open spec fn roll_outcome(p: ParamsModel, cfg: CharStore, user: u64, d: (int, int, int)) -> Result<
    (i32, Seq<char>),
    Failure,
> {
    if p.hope && p.despair {
        Err(Failure::Conflict)
    } else {
        match replay(p.modifiers, cfg, p.character, user) {
            Err(e) => Err(e),
            Ok(t) => {
                let total = if t.dice {
                    t.total + dice_sum(p, d)
                } else {
                    t.total
                };
                if !fits_i32(total) {
                    Err(Failure::Overflow)
                } else {
                    match active_character(cfg, p.character, user) {
                        Err(e) => Err(e),
                        Ok(name) => Ok(
                            (
                                total as i32,
                                name + " got a **"@ + decimal(total) + "**, "@ + (if t.dice {
                                    dice_text(p, d)
                                } else {
                                    Seq::empty()
                                }) + t.text,
                            ),
                        ),
                    }
                }
            },
        }
    }
}

proof fn lemma_replay_stuck(
    ms: Seq<ModifierModel>,
    i: int,
    cfg: CharStore,
    character: Option<Seq<char>>,
    user: u64,
)
    requires
        0 <= i <= ms.len(),
        replay(ms.subrange(0, i), cfg, character, user) is Err,
    ensures
        replay(ms, cfg, character, user) == replay(ms.subrange(0, i), cfg, character, user),
    decreases ms.len() - i,
{
    if i < ms.len() {
        assert(ms.subrange(0, i + 1).drop_last() =~= ms.subrange(0, i));
        lemma_replay_stuck(ms, i + 1, cfg, character, user);
    } else {
        assert(ms.subrange(0, i) =~= ms);
    }
}

proof fn lemma_replay_dice(ms: Seq<ModifierModel>, cfg: CharStore, character: Option<Seq<char>>, user: u64)
    requires
        replay(ms, cfg, character, user) is Ok,
    ensures
        replay(ms, cfg, character, user)->Ok_0.dice == !has_override(ms),
    decreases ms.len(),
{
    if ms.len() > 0 {
        let pre = ms.drop_last();
        lemma_replay_dice(pre, cfg, character, user);
        if has_override(pre) {
            let i = choose|i: int| 0 <= i < pre.len() && pre[i] is Override;
            assert(ms[i] == pre[i]);
        }
        if has_override(ms) && !(ms.last() is Override) {
            let i = choose|i: int| 0 <= i < ms.len() && ms[i] is Override;
            assert(i < ms.len() - 1);
            assert(pre[i] == ms[i]);
        }
    }
}

/// Replays the modifiers: the running total, its narrative, and whether
/// the dice are still to be rolled.
fn replay_modifiers(user: u64, params: &Parameters, cfg: &CharConfig) -> (r: Result<(i32, String, bool), RollError>)
    requires
        cfg.wf(),
    ensures
        match replay(params@.modifiers, cfg@, params@.character, user) {
            Ok(t) => r matches Ok(v) && v.0 as int == t.total && v.1@ == t.text && v.2 == t.dice,
            Err(e) => r matches Err(f) && f@ == e,
        },
{
    let ghost ms = params@.modifiers;
    let ghost character = params@.character;
    let name: Option<&str> = match &params.character {
        Some(c) => Some(c.as_str()),
        None => None,
    };
    let mut total: i32 = 0;
    let mut text = String::new();
    let mut dice = true;
    let mut i: usize = 0;
    assert(ms.subrange(0, 0) =~= Seq::<ModifierModel>::empty());
    while i < params.modifiers.len()
        invariant
            cfg.wf(),
            ms == params@.modifiers,
            character == params@.character,
            match name {
                Some(n) => character == Some(n@),
                None => character is None,
            },
            i <= params.modifiers@.len(),
            ms.len() == params.modifiers@.len(),
            replay(ms.subrange(0, i as int), cfg@, character, user) == Ok::<Tally, Failure>(
                Tally { total: total as int, text: text@, dice },
            ),
        decreases params.modifiers@.len() - i,
    {
        let ghost pre = ms.subrange(0, i as int);
        assert(ms.subrange(0, i + 1).drop_last() =~= pre);
        assert(ms.subrange(0, i + 1).last() == params.modifiers@[i as int]@);
        match &params.modifiers[i] {
            Modifier::Number(n) => {
                let sum: i64 = total as i64 + *n as i64;
                if sum < i32::MIN as i64 || sum > i32::MAX as i64 {
                    proof {
                        lemma_replay_stuck(ms, i + 1, cfg@, character, user);
                    }
                    return Err(RollError::Overflow);
                }
                text.append("+");
                push_int(&mut text, *n);
                total = sum as i32;
            },
            Modifier::StatRef { sign, stat } => {
                let v = match get_stat(cfg, name, user, stat.as_str()) {
                    Ok(v) => v,
                    Err(e) => {
                        proof {
                            lemma_replay_stuck(ms, i + 1, cfg@, character, user);
                        }
                        return Err(e);
                    },
                };
                let s64: i64 = *sign as i64;
                let v64: i64 = v as i64;
                assert(-4611686018427387904 <= s64 * v64 <= 4611686018427387904) by (nonlinear_arith)
                    requires
                        -2147483648 <= s64 <= 2147483647,
                        -2147483648 <= v64 <= 2147483647,
                ;
                let c: i64 = s64 * v64;
                let sum: i64 = total as i64 + c;
                if c < i32::MIN as i64 || c > i32::MAX as i64 || sum < i32::MIN as i64 || sum
                    > i32::MAX as i64 {
                    proof {
                        lemma_replay_stuck(ms, i + 1, cfg@, character, user);
                    }
                    return Err(RollError::Overflow);
                }
                if *sign > 0 {
                    text.append("+");
                } else {
                    text.append("-");
                }
                text.append(stat.as_str());
                text.append(" [");
                push_int(&mut text, c as i32);
                text.append("]");
                total = sum as i32;
            },
            Modifier::Override(n) => {
                total = *n;
                text = String::new();
                text.append("manually input ");
                push_int(&mut text, *n);
                dice = false;
                assert(text@ =~= "manually input "@ + decimal(*n as int));
            },
        }
        i = i + 1;
    }
    assert(ms.subrange(0, i as int) =~= ms);
    Ok((total, text, dice))
}

fn lowest(a: i32, b: i32, c: i32) -> (r: i32)
    ensures
        r as int == min3(a as int, b as int, c as int),
{
    if a <= b && a <= c {
        a
    } else if b <= c {
        b
    } else {
        c
    }
}

fn highest(a: i32, b: i32, c: i32) -> (r: i32)
    ensures
        r as int == max3(a as int, b as int, c as int),
{
    if a >= b && a >= c {
        a
    } else if b >= c {
        b
    } else {
        c
    }
}

/// Resolves a roll given what the dice showed: `d.0` and `d.1` are the two
/// base dice, `d.2` the extra die of hope or despair. Dice that the roll
/// does not call for are ignored.
pub fn resolve_roll(user: u64, params: &Parameters, cfg: &CharConfig, d: (i32, i32, i32)) -> (r: Result<
    (i32, String),
    RollError,
>)
    requires
        cfg.wf(),
    ensures
        result_view(r) == roll_outcome(params@, cfg@, user, (d.0 as int, d.1 as int, d.2 as int)),
{
    let ghost p = params@;
    let ghost dd = (d.0 as int, d.1 as int, d.2 as int);
    if params.hope && params.despair {
        return Err(RollError::Conflict);
    }
    let (total, text, dice) = match replay_modifiers(user, params, cfg) {
        Ok(v) => v,
        Err(e) => return Err(e),
    };
    let mut sum: i64 = total as i64;
    let mut dice_line = String::new();
    if dice {
        sum = sum + d.0 as i64 + d.1 as i64;
        dice_line.append("(Rolled ");
        push_int(&mut dice_line, d.0);
        if params.hope || params.despair {
            let dropped = if params.hope {
                lowest(d.0, d.1, d.2)
            } else {
                highest(d.0, d.1, d.2)
            };
            assert(dropped as int == dropped_die(p, dd));
            sum = sum + d.2 as i64 - dropped as i64;
            dice_line.append(", ");
            push_int(&mut dice_line, d.1);
            dice_line.append(" and ");
            push_int(&mut dice_line, d.2);
            dice_line.append("; dropped ");
            push_int(&mut dice_line, dropped);
            dice_line.append(")");
        } else {
            dice_line.append(" and ");
            push_int(&mut dice_line, d.1);
            dice_line.append(")");
        }
        assert(dice_line@ =~= dice_text(p, dd));
    } else {
        assert(dice_line@ =~= Seq::<char>::empty());
    }
    if sum < i32::MIN as i64 || sum > i32::MAX as i64 {
        return Err(RollError::Overflow);
    }
    let mut message = match &params.character {
        Some(c) => c.clone(),
        None => match get_current_char(cfg, user) {
            Ok(c) => c,
            Err(e) => return Err(e),
        },
    };
    let ghost name = message@;
    message.append(" got a **");
    push_int(&mut message, sum as i32);
    message.append("**, ");
    message.append(dice_line.as_str());
    message.append(text.as_str());
    assert(message@ =~= name + " got a **"@ + decimal(sum as int) + "**, "@ + dice_line@ + text@);
    Ok((sum as i32, message))
}

/// How many dice a roll with these parameters draws.
pub fn dice_needed(params: &Parameters) -> (r: usize)
    ensures
        r == dice_count(params@),
{
    let mut i: usize = 0;
    while i < params.modifiers.len()
        invariant
            i <= params.modifiers@.len(),
            forall|j: int| 0 <= j < i ==> !(params@.modifiers[j] is Override),
        decreases params.modifiers@.len() - i,
    {
        if let Modifier::Override(_) = &params.modifiers[i] {
            assert(params@.modifiers[i as int] is Override);
            return 0;
        }
        i = i + 1;
    }
    if params.hope || params.despair {
        3
    } else {
        2
    }
}

/// Relies on `fastrand::i32` over a half-open range: the value drawn lies
/// in `low..end`.
#[verifier::external_body]
fn random_i32(low: i32, end: i32) -> (r: i32)
    requires
        low < end,
    ensures
        low <= r < end,
{
    fastrand::i32(low..end)
}

pub open spec fn is_face(v: int) -> bool {
    DIE_LOW <= v < DIE_END
}

/// Each of the three dice shows a face.
pub open spec fn are_faces(d: (int, int, int)) -> bool {
    is_face(d.0) && is_face(d.1) && is_face(d.2)
}

/// Rolls: draws as many dice as [`dice_needed`] says (none once an override
/// is given) and resolves the roll with them. The outcome is that of some
/// faces of the dice.
pub fn calculate_roll(user: u64, params: &Parameters, cfg: &CharConfig) -> (r: Result<(i32, String), RollError>)
    requires
        cfg.wf(),
    ensures
        exists|d: (int, int, int)| are_faces(d) && result_view(r) == roll_outcome(params@, cfg@, user, d),
{
    let n = dice_needed(params);
    let d0 = if n >= 2 {
        random_i32(DIE_LOW, DIE_END)
    } else {
        DIE_LOW
    };
    let d1 = if n >= 2 {
        random_i32(DIE_LOW, DIE_END)
    } else {
        DIE_LOW
    };
    let d2 = if n >= 3 {
        random_i32(DIE_LOW, DIE_END)
    } else {
        DIE_LOW
    };
    let r = resolve_roll(user, params, cfg, (d0, d1, d2));
    assert(are_faces((d0 as int, d1 as int, d2 as int)));
    r
}

/// Hope and despair together always fail, whatever else is asked for.
pub proof fn lemma_conflict(p: ParamsModel, cfg: CharStore, user: u64, d: (int, int, int))
    requires
        p.hope && p.despair,
    ensures
        roll_outcome(p, cfg, user, d) == Err::<(i32, Seq<char>), Failure>(Failure::Conflict),
{
}

/// Once an override is given no die is drawn: the outcome is the same
/// whatever the dice show.
pub proof fn lemma_override_ignores_dice(
    p: ParamsModel,
    cfg: CharStore,
    user: u64,
    d: (int, int, int),
    e: (int, int, int),
)
    requires
        has_override(p.modifiers),
    ensures
        dice_count(p) == 0,
        roll_outcome(p, cfg, user, d) == roll_outcome(p, cfg, user, e),
{
    if replay(p.modifiers, cfg, p.character, user) is Ok {
        lemma_replay_dice(p.modifiers, cfg, p.character, user);
    }
}

/// An override replaces the total, and numbers after it still add to it
/// while the dice stay off.
pub proof fn lemma_override_then_number(n: int, k: int, cfg: CharStore, character: Option<Seq<char>>, user: u64)
    requires
        fits_i32(n),
        fits_i32(n + k),
    ensures
        replay(seq![ModifierModel::Override(n), ModifierModel::Number(k)], cfg, character, user)
            == Ok::<Tally, Failure>(
            Tally { total: n + k, text: "manually input "@ + decimal(n) + "+"@ + decimal(k), dice: false },
        ),
{
    let ms = seq![ModifierModel::Override(n), ModifierModel::Number(k)];
    assert(ms.drop_last() =~= seq![ModifierModel::Override(n)]);
    assert(ms.drop_last().drop_last() =~= Seq::<ModifierModel>::empty());
    assert(replay(ms.drop_last().drop_last(), cfg, character, user) == Ok::<Tally, Failure>(start_tally()));
    let t1 = Tally { total: n, text: "manually input "@ + decimal(n), dice: false };
    assert(replay(ms.drop_last(), cfg, character, user) == Ok::<Tally, Failure>(t1));
    assert(ms.last() == ModifierModel::Number(k));
}

} // verus!
