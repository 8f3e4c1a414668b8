//! The character store: characters and their stats, and the character each
//! user rolls as by default. Reading and writing it to disk is left to the
//! caller; this module holds the rules.

use vstd::prelude::*;
use std::collections::HashMap;
use crate::error::{Failure, RollError, result_view};
use crate::table::{
    table, unique_keys, find_key, lemma_table_absent, lemma_table_get, lemma_table_update,
    lemma_push_unique,
};

verus! {

broadcast use vstd::std_specs::hash::group_hash_axioms;

/// The stats of one character, by name.
pub struct CharInfo {
    stats: Vec<(String, i32)>,
}

/// All characters, and the default character of each user.
pub struct CharConfig {
    user_to_char: HashMap<u64, String>,
    characters: Vec<(String, CharInfo)>,
}

/// The model of the store.
pub struct CharStore {
    pub users: Map<u64, Seq<char>>,
    pub characters: Map<Seq<char>, Map<Seq<char>, i32>>,
}

impl CharInfo {
    pub closed spec fn entries(&self) -> Seq<(Seq<char>, i32)> {
        self.stats@.map_values(|e: (String, i32)| (e.0@, e.1))
    }

    pub closed spec fn wf(&self) -> bool {
        unique_keys(self.entries())
    }

    /// The stats, one entry per name.
    pub fn stats(&self) -> (r: &Vec<(String, i32)>)
        ensures
            table(r@.map_values(|e: (String, i32)| (e.0@, e.1))) == self@,
    {
        &self.stats
    }
}

impl View for CharInfo {
    type V = Map<Seq<char>, i32>;

    closed spec fn view(&self) -> Map<Seq<char>, i32> {
        table(self.entries())
    }
}

impl CharConfig {
    pub closed spec fn entries(&self) -> Seq<(Seq<char>, Map<Seq<char>, i32>)> {
        self.characters@.map_values(|e: (String, CharInfo)| (e.0@, e.1@))
    }

    /// Character names are distinct, and so are the stat names of each character.
    pub closed spec fn wf(&self) -> bool {
        &&& unique_keys(self.entries())
        &&& forall|j: int| 0 <= j < self.characters@.len() ==> (#[trigger] self.characters@[j]).1.wf()
    }

    /// The default character of each user.
    pub fn user_to_char(&self) -> (r: &HashMap<u64, String>)
        ensures
            r@.map_values(|s: String| s@) == self@.users,
    {
        &self.user_to_char
    }

    /// The characters with their stats, one entry per name.
    pub fn characters(&self) -> (r: &Vec<(String, CharInfo)>)
        ensures
            table(r@.map_values(|e: (String, CharInfo)| (e.0@, e.1@))) == self@.characters,
    {
        &self.characters
    }

    /// An empty store.
    pub fn empty() -> (r: CharConfig)
        ensures
            r.wf(),
            r@.users == Map::<u64, Seq<char>>::empty(),
            r@.characters == Map::<Seq<char>, Map<Seq<char>, i32>>::empty(),
    {
        let r = CharConfig { user_to_char: HashMap::new(), characters: Vec::new() };
        assert(r@.users =~= Map::<u64, Seq<char>>::empty());
        assert(r.entries() =~= Seq::<(Seq<char>, Map<Seq<char>, i32>)>::empty());
        r
    }
}

impl View for CharConfig {
    type V = CharStore;

    closed spec fn view(&self) -> CharStore {
        CharStore {
            users: self.user_to_char@.map_values(|s: String| s@),
            characters: table(self.entries()),
        }
    }
}

/// The character a roll is made as: the one named, else the user's default.
pub open spec fn active_character(m: CharStore, name: Option<Seq<char>>, user: u64) -> Result<Seq<char>, Failure> {
    match name {
        Some(n) => Ok(n),
        None => if m.users.contains_key(user) {
            Ok(m.users[user])
        } else {
            Err(Failure::NoCharacterChosen)
        },
    }
}

/// The value of a stat of the active character.
pub open spec fn stat_value(m: CharStore, name: Option<Seq<char>>, user: u64, stat: Seq<char>) -> Result<i32, Failure> {
    match active_character(m, name, user) {
        Err(e) => Err(e),
        Ok(c) => if !m.characters.contains_key(c) {
            Err(Failure::CharacterNotFound(c))
        } else if !m.characters[c].contains_key(stat) {
            Err(Failure::StatNotSet { stat, character: c })
        } else {
            Ok(m.characters[c][stat])
        },
    }
}

/// A stat cannot be looked up for a user who names no character and has
/// chosen no default: that fails, with no character chosen.
pub proof fn lemma_unresolved_character(m: CharStore, user: u64, stat: Seq<char>)
    requires
        !m.users.contains_key(user),
    ensures
        stat_value(m, None, user, stat) == Err::<i32, Failure>(Failure::NoCharacterChosen),
{
}

/// Creates a character with no stats. Fails if the name is taken.
pub fn new(cfg: &mut CharConfig, name: &str) -> (r: Result<(), RollError>)
    requires
        old(cfg).wf(),
    ensures
        final(cfg).wf(),
        old(cfg)@.characters.contains_key(name@) ==> (r matches Err(e) && e@ == Failure::CharacterExists(name@)
            && final(cfg)@ == old(cfg)@),
        !old(cfg)@.characters.contains_key(name@) ==> r is Ok && final(cfg)@ == (CharStore {
            characters: old(cfg)@.characters.insert(name@, Map::empty()),
            ..old(cfg)@
        }),
{
    let ghost before = cfg.entries();
    match find_key(&cfg.characters, name) {
        Some(j) => {
            proof {
                lemma_table_get(before, j as int);
            }
            Err(RollError::CharacterExists(name.to_owned()))
        },
        None => {
            proof {
                assert(forall|j: int| 0 <= j < before.len() ==> before[j].0 == cfg.characters@[j].0@);
                lemma_table_absent(before, name@);
            }
            let info = CharInfo { stats: Vec::new() };
            assert(info.entries() =~= Seq::<(Seq<char>, i32)>::empty());
            assert(info@ =~= Map::<Seq<char>, i32>::empty());
            cfg.characters.push((name.to_owned(), info));
            proof {
                lemma_push_unique(before, name@, Map::empty());
                assert(cfg.entries() =~= before.push((name@, Map::<Seq<char>, i32>::empty())));
                assert(forall|j: int| 0 <= j < cfg.characters@.len() ==> (#[trigger] cfg.characters@[j]).1.wf()) by {
                    assert(forall|j: int| 0 <= j < cfg.characters@.len() - 1 ==> cfg.characters@[j] == old(cfg).characters@[j]);
                }
            }
            Ok(())
        },
    }
}

/// Makes `name` the character that user `id` rolls as by default.
pub fn choose_character(cfg: &mut CharConfig, id: u64, name: &str)
    requires
        old(cfg).wf(),
    ensures
        final(cfg).wf(),
        final(cfg)@ == (CharStore { users: old(cfg)@.users.insert(id, name@), ..old(cfg)@ }),
{
    cfg.user_to_char.insert(id, name.to_owned());
    assert(cfg@.users =~= old(cfg)@.users.insert(id, name@));
}

/// Sets a stat of an existing character.
pub fn set_stat(cfg: &mut CharConfig, name: &str, stat: &str, val: i32) -> (r: Result<(), RollError>)
    requires
        old(cfg).wf(),
    ensures
        final(cfg).wf(),
        !old(cfg)@.characters.contains_key(name@) ==> (r matches Err(e) && e@ == Failure::CharacterNotFound(name@)
            && final(cfg)@ == old(cfg)@),
        old(cfg)@.characters.contains_key(name@) ==> r is Ok && final(cfg)@ == (CharStore {
            characters: old(cfg)@.characters.insert(
                name@,
                old(cfg)@.characters[name@].insert(stat@, val),
            ),
            ..old(cfg)@
        }),
{
    let ghost before = cfg.entries();
    match find_key(&cfg.characters, name) {
        None => {
            proof {
                assert(forall|j: int| 0 <= j < before.len() ==> before[j].0 == cfg.characters@[j].0@);
                lemma_table_absent(before, name@);
            }
            Err(RollError::CharacterNotFound(name.to_owned()))
        },
        Some(j) => {
            proof {
                lemma_table_get(before, j as int);
            }
            let (key, mut info) = cfg.characters.remove(j);
            assert(info.wf());
            let ghost old_stats = info.entries();
            match find_key(&info.stats, stat) {
                Some(k) => {
                    proof {
                        lemma_table_update(old_stats, k as int, val);
                    }
                    let (sname, _) = info.stats.remove(k);
                    info.stats.insert(k, (sname, val));
                    assert(info.entries() =~= old_stats.update(k as int, (old_stats[k as int].0, val)));
                },
                None => {
                    proof {
                        assert(forall|i: int| 0 <= i < old_stats.len() ==> old_stats[i].0 == info.stats@[i].0@);
                        lemma_push_unique(old_stats, stat@, val);
                    }
                    info.stats.push((stat.to_owned(), val));
                    assert(info.entries() =~= old_stats.push((stat@, val)));
                },
            }
            let ghost new_info = info@;
            cfg.characters.insert(j, (key, info));
            proof {
                lemma_table_update(before, j as int, new_info);
                assert(cfg.entries() =~= before.update(j as int, (before[j as int].0, new_info)));
                assert forall|i: int| 0 <= i < cfg.characters@.len() implies (#[trigger] cfg.characters@[i]).1.wf() by {
                    if i != j {
                        assert(cfg.characters@[i] == old(cfg).characters@[i]);
                    }
                }
                assert(cfg@.users == old(cfg)@.users);
            }
            Ok(())
        },
    }
}

/// The name of the character that `user` rolls as by default.
pub(crate) fn current_char(cfg: &CharConfig, user: u64) -> (r: Result<&String, RollError>)
    ensures
        result_view(r) == active_character(cfg@, None, user),
{
    match cfg.user_to_char.get(&user) {
        Some(name) => Ok(name),
        None => Err(RollError::NoCharacterChosen),
    }
}

/// The name of the character that `user` rolls as by default.
pub fn get_current_char(cfg: &CharConfig, user: u64) -> (r: Result<String, RollError>)
    ensures
        result_view(r) == active_character(cfg@, None, user),
{
    match current_char(cfg, user) {
        Ok(name) => Ok(name.clone()),
        Err(e) => Err(e),
    }
}

/// A stat of the character named, or of the user's default character.
pub fn get_stat(cfg: &CharConfig, name: Option<&str>, user: u64, stat: &str) -> (r: Result<i32, RollError>)
    requires
        cfg.wf(),
    ensures
        result_view(r) == stat_value(cfg@, match name {
            Some(n) => Some(n@),
            None => None,
        }, user, stat@),
{
    let character: &str = match name {
        Some(n) => n,
        None => match current_char(cfg, user) {
            Ok(c) => c.as_str(),
            Err(e) => return Err(e),
        },
    };
    let ghost chars = cfg.entries();
    match find_key(&cfg.characters, character) {
        None => {
            proof {
                assert(forall|j: int| 0 <= j < chars.len() ==> chars[j].0 == cfg.characters@[j].0@);
                lemma_table_absent(chars, character@);
            }
            Err(RollError::CharacterNotFound(character.to_owned()))
        },
        Some(j) => {
            proof {
                lemma_table_get(chars, j as int);
            }
            let info = &cfg.characters[j].1;
            assert(info.wf());
            let ghost stats = info.entries();
            match find_key(&info.stats, stat) {
                None => {
                    proof {
                        assert(forall|i: int| 0 <= i < stats.len() ==> stats[i].0 == info.stats@[i].0@);
                        lemma_table_absent(stats, stat@);
                    }
                    Err(RollError::StatNotSet { stat: stat.to_owned(), character: character.to_owned() })
                },
                Some(k) => {
                    proof {
                        lemma_table_get(stats, k as int);
                    }
                    Ok(info.stats[k].1)
                },
            }
        },
    }
}

} // verus!
