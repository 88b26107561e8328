use vstd::prelude::*;

use crate::input::Key;

verus! {

/// These are all functions that a key can map to.
#[derive(Debug, Clone, Copy, PartialEq, Eq, Structural)]
pub enum KeyAction {
    LaneUp,
    LaneUpAlt,
    LaneDown,
    LaneDownAlt,
    Exit,
}

/// The player's settings.
///
/// `keybinds` pairs keys with the action they trigger; no key occurs twice.
#[derive(Debug)]
pub struct GameConfig {
    /// Location of the songs folder.
    pub song_folder: String,
    pub lane_speed: u32,
    pub keybinds: Vec<(Key, KeyAction)>,
}

/// No key is bound twice in `binds`.
pub open spec fn keys_unique(binds: Seq<(Key, KeyAction)>) -> bool {
    forall|i: int, j: int| 0 <= i < binds.len() && 0 <= j < binds.len() && i != j ==> binds[i].0
        != binds[j].0
}

/// The action that `key` is bound to in `binds`, if any.
pub open spec fn bound_action(binds: Seq<(Key, KeyAction)>, key: Key) -> Option<KeyAction>
    decreases binds.len(),
{
    if binds.len() == 0 {
        None
    } else if binds[0].0 == key {
        Some(binds[0].1)
    } else {
        bound_action(binds.drop_first(), key)
    }
}

/// The binding found for a key is one of the pairs of the table, and a key
/// with no pair in the table has none.
pub proof fn lemma_bound_action_is_a_binding(binds: Seq<(Key, KeyAction)>, key: Key)
    ensures
        bound_action(binds, key) is Some ==> binds.contains((key, bound_action(binds, key)->0)),
        bound_action(binds, key) is None <==> forall|i: int| 0 <= i < binds.len() ==> binds[i].0
            != key,
    decreases binds.len(),
{
    if binds.len() > 0 {
        lemma_bound_action_is_a_binding(binds.drop_first(), key);
        if bound_action(binds, key) is Some && binds[0].0 != key {
            let k = choose|k: int|
                0 <= k < binds.drop_first().len() && binds.drop_first()[k] == (
                key,
                bound_action(binds, key)->0,
            );
            assert(binds[k + 1] == binds.drop_first()[k]);
        }
        if bound_action(binds, key) is None {
            assert forall|i: int| 0 <= i < binds.len() implies binds[i].0 != key by {
                if i > 0 {
                    assert(binds[i] == binds.drop_first()[i - 1]);
                }
            }
        } else if binds[0].0 != key {
            let k = choose|k: int|
                0 <= k < binds.drop_first().len() && binds.drop_first()[k] == (
                key,
                bound_action(binds, key)->0,
            );
            assert(binds[k + 1].0 == key);
        }
    }
}

/// Where no key is bound twice, a key is bound to an action exactly when
/// the pair of the two stands in the table.
pub proof fn lemma_unique_binding(binds: Seq<(Key, KeyAction)>, key: Key, action: KeyAction)
    requires
        keys_unique(binds),
    ensures
        bound_action(binds, key) == Some(action) <==> binds.contains((key, action)),
    decreases binds.len(),
{
    if binds.len() > 0 {
        let rest = binds.drop_first();
        assert(keys_unique(rest)) by {
            assert forall|i: int, j: int|
                0 <= i < rest.len() && 0 <= j < rest.len() && i != j implies rest[i].0
                != rest[j].0 by {
                assert(rest[i] == binds[i + 1]);
                assert(rest[j] == binds[j + 1]);
            }
        }
        lemma_unique_binding(rest, key, action);
        if binds.contains((key, action)) {
            let k = choose|k: int| 0 <= k < binds.len() && binds[k] == (key, action);
            if k > 0 {
                assert(rest[k - 1] == binds[k]);
                assert(binds[0].0 != key);
            }
        }
        if rest.contains((key, action)) {
            let k = choose|k: int| 0 <= k < rest.len() && rest[k] == (key, action);
            assert(binds[k + 1] == rest[k]);
        }
    }
}

impl Default for GameConfig {
    /// The settings used where none were saved: songs in "songs", lane
    /// speed 20, X and C for the upper lane, comma and dot for the lower
    /// lane, and Escape to leave a song.
    fn default() -> (r: Self)
        ensures
            r.song_folder@ == "songs"@,
            r.lane_speed == 20,
            r.keybinds@ == seq![
                (Key::X, KeyAction::LaneUp),
                (Key::C, KeyAction::LaneUpAlt),
                (Key::Comma, KeyAction::LaneDown),
                (Key::Dot, KeyAction::LaneDownAlt),
                (Key::Escape, KeyAction::Exit),
            ],
            keys_unique(r.keybinds@),
    {
        let mut keybinds: Vec<(Key, KeyAction)> = Vec::new();
        keybinds.push((Key::X, KeyAction::LaneUp));
        keybinds.push((Key::C, KeyAction::LaneUpAlt));
        keybinds.push((Key::Comma, KeyAction::LaneDown));
        keybinds.push((Key::Dot, KeyAction::LaneDownAlt));
        keybinds.push((Key::Escape, KeyAction::Exit));
        let r = GameConfig { song_folder: "songs".to_owned(), lane_speed: 20, keybinds };
        assert(r.keybinds@ =~= seq![
            (Key::X, KeyAction::LaneUp),
            (Key::C, KeyAction::LaneUpAlt),
            (Key::Comma, KeyAction::LaneDown),
            (Key::Dot, KeyAction::LaneDownAlt),
            (Key::Escape, KeyAction::Exit),
        ]);
        r
    }
}

impl GameConfig {
    /// No key is bound twice in these settings.
    pub fn has_unique_keys(&self) -> (r: bool)
        ensures
            r == keys_unique(self.keybinds@),
    {
        let mut i: usize = 0;
        while i < self.keybinds.len()
            invariant
                i <= self.keybinds@.len(),
                forall|a: int, b: int|
                    0 <= a < i && 0 <= b < self.keybinds@.len() && a != b ==> self.keybinds@[a].0 != self.keybinds@[b].0,
            decreases self.keybinds@.len() - i,
        {
            let mut j: usize = 0;
            while j < self.keybinds.len()
                invariant
                    i < self.keybinds@.len(),
                    j <= self.keybinds@.len(),
                    forall|b: int| 0 <= b < j && b != i ==> self.keybinds@[i as int].0 != self.keybinds@[b].0,
                decreases self.keybinds@.len() - j,
            {
                if j != i && self.keybinds[i].0 == self.keybinds[j].0 {
                    proof {
                        assert(self.keybinds@[i as int].0 == self.keybinds@[j as int].0);
                        assert(!keys_unique(self.keybinds@));
                    }
                    return false;
                }
                j += 1;
            }
            i += 1;
        }
        true
    }

    /// The action bound to `key`, if any.
    pub fn action_for(&self, key: Key) -> (r: Option<KeyAction>)
        requires
            keys_unique(self.keybinds@),
        ensures
            r == bound_action(self.keybinds@, key),
            r is None <==> forall|i: int|
                0 <= i < self.keybinds@.len() ==> self.keybinds@[i].0 != key,
            forall|action: KeyAction| r == Some(action) <==> self.keybinds@.contains((key, action)),
    {
        proof {
            lemma_bound_action_is_a_binding(self.keybinds@, key);
            assert forall|action: KeyAction|
                bound_action(self.keybinds@, key) == Some(action) <==> self.keybinds@.contains(
                    (key, action),
                ) by {
                lemma_unique_binding(self.keybinds@, key, action);
            }
        }
        let mut i: usize = 0;
        proof {
            assert(self.keybinds@.skip(0) =~= self.keybinds@);
        }
        while i < self.keybinds.len()
            invariant
                i <= self.keybinds@.len(),
                bound_action(self.keybinds@, key) == bound_action(self.keybinds@.skip(i as int), key),
                forall|action: KeyAction|
                    bound_action(self.keybinds@, key) == Some(action) <==> self.keybinds@.contains(
                        (key, action),
                    ),
            decreases self.keybinds@.len() - i,
        {
            let (k, action) = self.keybinds[i];
            proof {
                assert(self.keybinds@.skip(i as int)[0] == self.keybinds@[i as int]);
                assert(self.keybinds@.skip(i as int).drop_first() =~= self.keybinds@.skip(i + 1));
            }
            if k == key {
                return Some(action);
            }
            i += 1;
        }
        proof {
            assert(self.keybinds@.skip(i as int).len() == 0);
        }
        None
    }
}

} // verus!
