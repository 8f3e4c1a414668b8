//! The commands a player sends, from message text and stores to the text of
//! the reply. Receiving messages, sending replies and keeping the stores on
//! disk are the caller's part.

use vstd::prelude::*;
use crate::characters::{
    CharConfig, CharStore, active_character, choose_character, get_current_char, new, set_stat,
};
use crate::error::{Failure, RollError, failure_message, result_view};
use crate::moves::{band_text, MoveList, MoveModel, get_move, get_move_text, get_moves, move_text, opt_text};
use crate::parameters::{Modifier, ModifierModel, ParamsModel, chars_of, parameters, parsed};
use crate::roll::{are_faces, calculate_roll, roll_outcome};
use crate::text::{
    decimal, i32_of, join_from, join_lines, join_with_lines, join_words, lex_lt, parse_i32, push_int,
    split_words, texts, words, lemma_words_nonempty,
};

verus! {

/// The text of a reply: the result, or the error behind an error marker.
pub open spec fn reply_text(r: Result<Seq<char>, Failure>) -> Seq<char> {
    match r {
        Ok(t) => t,
        Err(f) => "**Error:** "@ + failure_message(f),
    }
}

/// The reply to send for the outcome of a command.
pub fn reply(r: Result<String, RollError>) -> (t: String)
    ensures
        t@ == reply_text(result_view(r)),
{
    match r {
        Ok(text) => text,
        Err(e) => {
            let mut t = String::from_str("**Error:** ");
            let m = e.message();
            t.append(m.as_str());
            t
        },
    }
}

/// The narrative of a roll, without its sum.
pub open spec fn narrative(o: Result<(i32, Seq<char>), Failure>) -> Result<Seq<char>, Failure> {
    match o {
        Ok(v) => Ok(v.1),
        Err(e) => Err(e),
    }
}

/// The reply to `roll <parameters>`, given what the dice showed.
pub open spec fn roll_reply(content: Seq<char>, cfg: CharStore, user: u64, d: (int, int, int)) -> Result<
    Seq<char>,
    Failure,
> {
    match parsed(join_words(words(content).skip(1))) {
        Err(e) => Err(e),
        Ok(p) => narrative(roll_outcome(p, cfg, user, d)),
    }
}

/// Handles `roll <parameters>`.
pub fn roll_command(user: u64, content: &str, chars: &CharConfig) -> (r: Result<String, RollError>)
    requires
        chars.wf(),
    ensures
        exists|d: (int, int, int)| are_faces(d) && result_view(r) == roll_reply(content@, chars@, user, d),
{
    let ws = split_words(content);
    proof {
        lemma_words_nonempty(content@);
        assert(texts(ws@).len() == ws@.len());
    }
    let args = join_from(&ws, 1);
    let params = match parameters(args.as_str()) {
        Ok(p) => p,
        Err(e) => {
            assert(are_faces((1, 1, 1)));
            assert(result_view(Err::<String, RollError>(e)) == roll_reply(content@, chars@, user, (1, 1, 1)));
            return Err(e);
        },
    };
    let outcome = calculate_roll(user, &params, chars);
    let ghost d = choose|d: (int, int, int)| are_faces(d) && result_view(outcome) == roll_outcome(params@, chars@, user, d);
    let r = match outcome {
        Ok((_, message)) => Ok(message),
        Err(e) => Err(e),
    };
    assert(are_faces(d) && result_view(r) == roll_reply(content@, chars@, user, d));
    r
}

/// The parameters of a move: those given, then the move's own stat.
pub open spec fn with_move_stat(p: ParamsModel, m: MoveModel) -> ParamsModel {
    match m.stat {
        Some(s) => ParamsModel {
            modifiers: p.modifiers.push(ModifierModel::StatRef { sign: s.1 as int, stat: s.0 }),
            ..p
        },
        None => p,
    }
}

/// The reply to `move <name> <parameters>`, given what the dice showed.
pub open spec fn move_reply(
    content: Seq<char>,
    moves: Map<Seq<char>, MoveModel>,
    cfg: CharStore,
    user: u64,
    d: (int, int, int),
) -> Result<Seq<char>, Failure> {
    let ws = words(content);
    if ws.len() < 2 {
        Err(Failure::Missing("Move name required"@))
    } else if !moves.contains_key(ws[1]) {
        Err(Failure::MoveNotFound(ws[1]))
    } else {
        match parsed(join_words(ws.skip(2))) {
            Err(e) => Err(e),
            Ok(p) => match roll_outcome(with_move_stat(p, moves[ws[1]]), cfg, user, d) {
                Err(e) => Err(e),
                Ok(v) => Ok(move_text(moves[ws[1]], v.1, v.0 as int)),
            },
        }
    }
}

/// Handles `move <name> <parameters>`: rolls with the move's stat and
/// narrates the outcome bands.
pub fn move_command(user: u64, content: &str, moves: &MoveList, chars: &CharConfig) -> (r: Result<
    String,
    RollError,
>)
    requires
        moves.wf(),
        chars.wf(),
    ensures
        exists|d: (int, int, int)|
            are_faces(d) && result_view(r) == move_reply(content@, moves@, chars@, user, d),
{
    let ghost ws_model = words(content@);
    let ws = split_words(content);
    assert(are_faces((1, 1, 1)));
    if ws.len() < 2 {
        return Err(RollError::Missing(String::from_str("Move name required")));
    }
    assert(ws@[1]@ == ws_model[1]);
    let mv = match get_move(moves, ws[1].as_str()) {
        Ok(m) => m,
        Err(e) => return Err(e),
    };
    let rest = join_from(&ws, 2);
    let mut params = match parameters(rest.as_str()) {
        Ok(p) => p,
        Err(e) => return Err(e),
    };
    let ghost given = params@;
    match &mv.stat {
        Some((stat, sign)) => {
            params.modifiers.push(Modifier::StatRef { sign: *sign, stat: stat.clone() });
            assert(params@.modifiers =~= given.modifiers.push(
                ModifierModel::StatRef { sign: *sign as int, stat: stat@ },
            ));
        },
        None => {},
    }
    assert(params@ == with_move_stat(given, mv@));
    match calculate_roll(user, &params, chars) {
        Ok((result, text)) => Ok(get_move_text(mv, text.as_str(), result)),
        Err(e) => Err(e),
    }
}

/// Everything a move says: preamble, the band texts one per line, postamble.
pub open spec fn describe_text(m: MoveModel) -> Seq<char> {
    opt_text(m.preamble) + "\n"@ + join_lines(m.options.map_values(band_text()))
        + "\n"@ + opt_text(m.postamble)
}

/// Handles `move describe <name>`.
pub fn describe_command(content: &str, moves: &MoveList) -> (r: Result<String, RollError>)
    requires
        moves.wf(),
    ensures
        words(content@).len() < 3 ==> result_view(r) == Err::<Seq<char>, Failure>(
            Failure::Missing("No move provided"@),
        ),
        words(content@).len() >= 3 ==> result_view(r) == if moves@.contains_key(words(content@)[2]) {
            Ok::<Seq<char>, Failure>(describe_text(moves@[words(content@)[2]]))
        } else {
            Err(Failure::MoveNotFound(words(content@)[2]))
        },
{
    let ws = split_words(content);
    if ws.len() < 3 {
        return Err(RollError::Missing(String::from_str("No move provided")));
    }
    let mv = match get_move(moves, ws[2].as_str()) {
        Ok(m) => m,
        Err(e) => return Err(e),
    };
    let mut lines: Vec<String> = Vec::new();
    let mut i: usize = 0;
    while i < mv.options.len()
        invariant
            i <= mv.options@.len(),
            texts(lines@) == mv@.options.map_values(band_text()).take(
                i as int,
            ),
        decreases mv.options@.len() - i,
    {
        let ghost all = mv@.options.map_values(band_text());
        assert(all[i as int] == mv.options@[i as int].1@);
        let ghost before = texts(lines@);
        lines.push(mv.options[i].1.clone());
        assert(texts(lines@) =~= before.push(mv.options@[i as int].1@));
        assert(all.take(i + 1) =~= all.take(i as int).push(all[i as int]));
        i = i + 1;
        assert(texts(lines@) =~= mv@.options.map_values(band_text()).take(
            i as int,
        ));
    }
    assert(mv@.options.map_values(band_text()).take(i as int)
        =~= mv@.options.map_values(band_text()));
    let mut text = match &mv.preamble {
        Some(p) => p.clone(),
        None => String::new(),
    };
    text.append("\n");
    let body = join_with_lines(&lines);
    text.append(body.as_str());
    text.append("\n");
    match &mv.postamble {
        Some(p) => text.append(p.as_str()),
        None => {},
    }
    Ok(text)
}

/// Handles `moves`: the names of all moves, one per line, in the order of texts.
pub fn moves_command(moves: &MoveList) -> (r: String)
    requires
        moves.wf(),
    ensures
        exists|names: Seq<Seq<char>>|
            {
                &&& r@ == join_lines(names)
                &&& forall|i: int, j: int| 0 <= i < j < names.len() ==> lex_lt(names[i], names[j])
                &&& forall|k: Seq<char>| moves@.contains_key(k) <==> names.contains(k)
            },
{
    let names = get_moves(moves);
    let r = join_with_lines(&names);
    proof {
        let ns = texts(names@);
        assert forall|k: Seq<char>| moves@.contains_key(k) <==> ns.contains(k) by {
            if ns.contains(k) {
                let i = choose|i: int| 0 <= i < ns.len() && ns[i] == k;
                assert(names@[i]@ == k);
            }
            if moves@.contains_key(k) {
                let i = choose|i: int| 0 <= i < names@.len() && names@[i]@ == k;
                assert(ns[i] == k);
            }
        }
    }
    r
}

/// Handles `char`: who the user rolls as.
pub fn char_command(user: u64, chars: &CharConfig) -> (r: Result<String, RollError>)
    ensures
        result_view(r) == match active_character(chars@, None, user) {
            Ok(name) => Ok("You are set up to roll as "@ + name),
            Err(e) => Err(e),
        },
{
    match get_current_char(chars, user) {
        Ok(name) => {
            let mut t = String::from_str("You are set up to roll as ");
            t.append(name.as_str());
            Ok(t)
        },
        Err(e) => Err(e),
    }
}

/// Handles `char new <name>`.
pub fn new_command(content: &str, chars: &mut CharConfig) -> (r: Result<String, RollError>)
    requires
        old(chars).wf(),
    ensures
        final(chars).wf(),
        words(content@).len() < 3 ==> result_view(r) == Err::<Seq<char>, Failure>(
            Failure::Missing("No name provided"@),
        ) && final(chars)@ == old(chars)@,
        words(content@).len() >= 3 && old(chars)@.characters.contains_key(words(content@)[2]) ==> result_view(r)
            == Err::<Seq<char>, Failure>(Failure::CharacterExists(words(content@)[2])) && final(chars)@
            == old(chars)@,
        words(content@).len() >= 3 && !old(chars)@.characters.contains_key(words(content@)[2]) ==> result_view(r)
            == Ok::<Seq<char>, Failure>("Character with name "@ + words(content@)[2] + " created"@)
            && final(chars)@ == (CharStore {
            characters: old(chars)@.characters.insert(words(content@)[2], Map::empty()),
            ..old(chars)@
        }),
{
    let ws = split_words(content);
    if ws.len() < 3 {
        return Err(RollError::Missing(String::from_str("No name provided")));
    }
    assert(ws@[2]@ == words(content@)[2]);
    match new(chars, ws[2].as_str()) {
        Ok(()) => {
            let mut t = String::from_str("Character with name ");
            t.append(ws[2].as_str());
            t.append(" created");
            Ok(t)
        },
        Err(e) => Err(e),
    }
}

/// Handles `char choose <name>`.
pub fn choose_command(user: u64, content: &str, chars: &mut CharConfig) -> (r: Result<String, RollError>)
    requires
        old(chars).wf(),
    ensures
        final(chars).wf(),
        words(content@).len() < 3 ==> result_view(r) == Err::<Seq<char>, Failure>(
            Failure::Missing("No name provided"@),
        ) && final(chars)@ == old(chars)@,
        words(content@).len() >= 3 ==> result_view(r) == Ok::<Seq<char>, Failure>(
            "Set up to roll as "@ + words(content@)[2],
        ) && final(chars)@ == (CharStore {
            users: old(chars)@.users.insert(user, words(content@)[2]),
            ..old(chars)@
        }),
{
    let ws = split_words(content);
    if ws.len() < 3 {
        return Err(RollError::Missing(String::from_str("No name provided")));
    }
    assert(ws@[2]@ == words(content@)[2]);
    choose_character(chars, user, ws[2].as_str());
    let mut t = String::from_str("Set up to roll as ");
    t.append(ws[2].as_str());
    Ok(t)
}

/// The reply to `char stat <name> <stat> <value>` and the stat it sets.
pub open spec fn stat_request(ws: Seq<Seq<char>>) -> Result<(Seq<char>, Seq<char>, i32), Failure> {
    if ws.len() < 3 {
        Err(Failure::Missing("No name provided"@))
    } else if ws.len() < 4 {
        Err(Failure::Missing("No stat provided"@))
    } else if ws.len() < 5 {
        Err(Failure::Missing("No value provided"@))
    } else {
        match i32_of(ws[4]) {
            Some(v) => Ok((ws[2], ws[3], v)),
            None => Err(Failure::Parse(ws[4])),
        }
    }
}

/// Handles `char stat <name> <stat> <value>`.
pub fn stat_command(content: &str, chars: &mut CharConfig) -> (r: Result<String, RollError>)
    requires
        old(chars).wf(),
    ensures
        final(chars).wf(),
        match stat_request(words(content@)) {
            Err(e) => result_view(r) == Err::<Seq<char>, Failure>(e) && final(chars)@ == old(chars)@,
            Ok((name, stat, v)) => if old(chars)@.characters.contains_key(name) {
                result_view(r) == Ok::<Seq<char>, Failure>(
                    name + "'s "@ + stat + " stat is now "@ + decimal(v as int),
                ) && final(chars)@ == (CharStore {
                    characters: old(chars)@.characters.insert(
                        name,
                        old(chars)@.characters[name].insert(stat, v),
                    ),
                    ..old(chars)@
                })
            } else {
                result_view(r) == Err::<Seq<char>, Failure>(Failure::CharacterNotFound(name))
                    && final(chars)@ == old(chars)@
            },
        },
{
    let ws = split_words(content);
    if ws.len() < 3 {
        return Err(RollError::Missing(String::from_str("No name provided")));
    }
    if ws.len() < 4 {
        return Err(RollError::Missing(String::from_str("No stat provided")));
    }
    if ws.len() < 5 {
        return Err(RollError::Missing(String::from_str("No value provided")));
    }
    assert(ws@[2]@ == words(content@)[2]);
    assert(ws@[3]@ == words(content@)[3]);
    assert(ws@[4]@ == words(content@)[4]);
    let digits = chars_of(ws[4].as_str());
    assert(digits@.subrange(0, digits@.len() as int) =~= digits@);
    let val = match parse_i32(&digits, 0, digits.len()) {
        Some(v) => v,
        None => return Err(RollError::Parse(ws[4].clone())),
    };
    match set_stat(chars, ws[2].as_str(), ws[3].as_str(), val) {
        Ok(()) => {
            let mut t = ws[2].clone();
            t.append("'s ");
            t.append(ws[3].as_str());
            t.append(" stat is now ");
            push_int(&mut t, val);
            Ok(t)
        },
        Err(e) => Err(e),
    }
}

} // verus!
