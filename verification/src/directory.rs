//! The directory of game lobbies that the server-wide lobby keeps and
//! publishes.

use crate::lobby::{entries, GameState, GameType, Lobby, LobbyEntry, LobbyEntryView, LobbyView};
use vstd::prelude::*;

verus! {

/// What the directory publishes about a lobby.
pub open spec fn entry_of(l: LobbyView) -> LobbyEntryView {
    LobbyEntryView {
        name: l.name,
        game_state: l.game_state,
        game_type: l.game_type,
        current_player_count: l.current_player_count,
        max_player_count: l.max_player_count,
    }
}

/// Position of the first entry from `start` on that has the given name, the
/// number of entries if there is none.
pub open spec fn find_entry_from(list: Seq<LobbyEntryView>, name: Seq<char>, start: int) -> int
    decreases list.len() - start,
{
    if start >= list.len() {
        list.len() as int
    } else if list[start].name == name {
        start
    } else {
        find_entry_from(list, name, start + 1)
    }
}

/// Position of the first entry with the given name, the number of entries
/// if there is none.
pub open spec fn find_entry(list: Seq<LobbyEntryView>, name: Seq<char>) -> int {
    find_entry_from(list, name, 0)
}

/// The entries without those of the given name, in their order.
pub open spec fn without_entry(list: Seq<LobbyEntryView>, name: Seq<char>) -> Seq<LobbyEntryView>
    decreases list.len(),
{
    if list.len() == 0 {
        list
    } else if list.last().name == name {
        without_entry(list.drop_last(), name)
    } else {
        without_entry(list.drop_last(), name).push(list.last())
    }
}

/// No two entries have the same name.
pub open spec fn names_unique(list: Seq<LobbyEntryView>) -> bool {
    forall|i: int, j: int|
        0 <= i < j < list.len() ==> (#[trigger] list[i]).name != (#[trigger] list[j]).name
}

/// What a lobby list shows as the status of a lobby.
pub open spec fn status_name(state: GameState) -> Seq<char> {
    if state == GameState::Joinable {
        "Joinable"@
    } else {
        "Not Joinable"@
    }
}

/// What a lobby list shows as the variant of a lobby.
pub open spec fn game_type_name(game_type: GameType) -> Seq<char> {
    match game_type {
        GameType::FiveCardDraw => "5 Card Draw"@,
        GameType::SevenCardStud => "7 Card Stud"@,
        GameType::TexasHoldEm => "Texas Hold'em"@,
        GameType::NotSet => "Unknown"@,
    }
}

/// The variant that a number on the wire stands for: 10 Five Card Draw, 11
/// Seven Card Stud, 12 Texas Hold'em, anything else no variant.
pub open spec fn game_type_of_code(code: int) -> GameType {
    if code == 10 {
        GameType::FiveCardDraw
    } else if code == 11 {
        GameType::SevenCardStud
    } else if code == 12 {
        GameType::TexasHoldEm
    } else {
        GameType::NotSet
    }
}

impl GameType {
    /// The variant that a number on the wire stands for.
    pub fn from_code(code: i32) -> (game_type: GameType)
        ensures
            game_type == game_type_of_code(code as int),
    {
        if code == 10 {
            GameType::FiveCardDraw
        } else if code == 11 {
            GameType::SevenCardStud
        } else if code == 12 {
            GameType::TexasHoldEm
        } else {
            GameType::NotSet
        }
    }

    /// The number that stands for the variant on the wire.
    pub fn code(self) -> (code: i32)
        ensures
            10 <= code <= 13,
            game_type_of_code(code as int) == self,
    {
        match self {
            GameType::FiveCardDraw => 10,
            GameType::SevenCardStud => 11,
            GameType::TexasHoldEm => 12,
            GameType::NotSet => 13,
        }
    }
}

/// What a lobby list shows as the status of a lobby: `Joinable` for a lobby
/// that takes players, `Not Joinable` for any other.
pub fn status_label(state: GameState) -> (label: String)
    ensures
        label@ == status_name(state),
{
    match state {
        GameState::Joinable => "Joinable".to_string(),
        _ => "Not Joinable".to_string(),
    }
}

/// What a lobby list shows as the variant of a lobby.
pub fn game_type_label(game_type: GameType) -> (label: String)
    ensures
        label@ == game_type_name(game_type),
{
    match game_type {
        GameType::FiveCardDraw => "5 Card Draw".to_string(),
        GameType::SevenCardStud => "7 Card Stud".to_string(),
        GameType::TexasHoldEm => "Texas Hold'em".to_string(),
        GameType::NotSet => "Unknown".to_string(),
    }
}

/// The first entry with the given name.
fn find_entry_index(list: &Vec<LobbyEntry>, name: &str) -> (found: Option<usize>)
    ensures
        match found {
            Some(i) => i < list@.len() && i == find_entry(entries(list@), name@),
            None => find_entry(entries(list@), name@) == list@.len(),
        },
{
    let wanted = name.to_string();
    let mut i: usize = 0;
    while i < list.len()
        invariant
            0 <= i <= list@.len(),
            wanted@ == name@,
            find_entry(entries(list@), name@) == find_entry_from(entries(list@), name@, i as int),
        decreases list@.len() - i,
    {
        if list[i].name == wanted {
            return Some(i);
        }
        i = i + 1;
    }
    None
}

/// An entry of the given name is found exactly where one exists.
pub proof fn lemma_find_entry(list: Seq<LobbyEntryView>, name: Seq<char>, start: int)
    requires
        0 <= start <= list.len(),
    ensures
        start <= find_entry_from(list, name, start) <= list.len(),
        find_entry_from(list, name, start) < list.len() ==> list[find_entry_from(list, name, start)].name
            == name,
        forall|i: int| start <= i < find_entry_from(list, name, start)
            ==> (#[trigger] list[i]).name != name,
    decreases list.len() - start,
{
    if start < list.len() && list[start].name != name {
        lemma_find_entry(list, name, start + 1);
    }
}

/// Adding an entry under a name that the directory does not hold keeps the
/// names unique.
pub proof fn lemma_new_name_keeps_unique(list: Seq<LobbyEntryView>, e: LobbyEntryView)
    requires
        names_unique(list),
        find_entry(list, e.name) == list.len(),
    ensures
        names_unique(list.push(e)),
{
    lemma_find_entry(list, e.name, 0);
    let added = list.push(e);
    assert forall|i: int, j: int| 0 <= i < j < added.len() implies (#[trigger] added[i]).name != (
    #[trigger] added[j]).name by {
        if j < list.len() {
            assert(added[i] == list[i] && added[j] == list[j]);
        } else {
            assert(added[i] == list[i]);
        }
    }
}

impl Lobby {
    /// Enters a lobby into the directory.
    pub fn add_lobby(&mut self, lobby: &Lobby)
        ensures
            final(self)@ == (LobbyView {
                directory: old(self)@.directory.push(entry_of(lobby@)),
                ..old(self)@
            }),
            names_unique(old(self)@.directory) && find_entry(old(self)@.directory, lobby@.name)
                == old(self)@.directory.len() ==> names_unique(final(self)@.directory),
    {
        let entry = LobbyEntry {
            name: lobby.name.clone(),
            game_state: lobby.game_state,
            game_type: lobby.game_type,
            current_player_count: lobby.current_player_count,
            max_player_count: lobby.max_player_count,
        };
        self.lobby_names_and_status.push(entry);
        proof {
            assert(self@.directory =~= old(self)@.directory.push(entry_of(lobby@)));
            if names_unique(old(self)@.directory) && find_entry(old(self)@.directory, lobby@.name)
                == old(self)@.directory.len() {
                lemma_new_name_keeps_unique(old(self)@.directory, entry_of(lobby@));
            }
        }
    }

    /// Takes every entry of the given name out of the directory.
    pub fn remove_lobby(&mut self, lobby_name: String)
        ensures
            final(self)@ == (LobbyView {
                directory: without_entry(old(self)@.directory, lobby_name@),
                ..old(self)@
            }),
    {
        let ghost before = entries(self.lobby_names_and_status@);
        let ghost mut k: int = 0;
        let mut i: usize = 0;
        assert(before.subrange(0, 0) =~= Seq::<LobbyEntryView>::empty());
        while i < self.lobby_names_and_status.len()
            invariant
                0 <= i <= self.lobby_names_and_status@.len(),
                i <= k <= before.len(),
                before == old(self)@.directory,
                self.lobby_names_and_status@.len() - i == before.len() - k,
                entries(self.lobby_names_and_status@).subrange(0, i as int) == without_entry(
                    before.subrange(0, k),
                    lobby_name@,
                ),
                forall|j: int|
                    i <= j < self.lobby_names_and_status@.len() ==> entries(
                        self.lobby_names_and_status@,
                    )[j] == before[j - i + k],
                self@ == (LobbyView { directory: self@.directory, ..old(self)@ }),
            decreases self.lobby_names_and_status@.len() - i,
        {
            let ghost cur = entries(self.lobby_names_and_status@);
            assert(cur[i as int] == before[k]);
            assert(before.subrange(0, k + 1).drop_last() =~= before.subrange(0, k));
            assert(before.subrange(0, k + 1).last() == before[k]);
            if self.lobby_names_and_status[i].name == lobby_name {
                self.lobby_names_and_status.remove(i);
                proof {
                    let now = entries(self.lobby_names_and_status@);
                    assert(now =~= cur.remove(i as int));
                    assert(now.subrange(0, i as int) =~= cur.subrange(0, i as int));
                    assert forall|j: int|
                        i <= j < self.lobby_names_and_status@.len() implies entries(
                        self.lobby_names_and_status@,
                    )[j] == before[j - i + k + 1] by {
                        assert(now[j] == cur[j + 1]);
                    }
                    k = k + 1;
                }
            } else {
                proof {
                    assert(cur.subrange(0, i + 1) =~= cur.subrange(0, i as int).push(cur[i as int]));
                    k = k + 1;
                }
                i = i + 1;
            }
        }
        proof {
            assert(entries(self.lobby_names_and_status@).subrange(0, i as int) =~= entries(
                self.lobby_names_and_status@,
            ));
            assert(before.subrange(0, k) =~= before);
        }
    }

    /// Brings the first entry that has the lobby's name up to date with the
    /// lobby's phase and number of players.
    pub fn update_lobby_names_status(&mut self, lobby: &Lobby)
        ensures
            final(self)@ == (LobbyView {
                directory: if find_entry(old(self)@.directory,
                    lobby@.name) < old(self)@.directory.len() {
                    old(self)@.directory.update(
                        find_entry(old(self)@.directory, lobby@.name),
                        LobbyEntryView {
                            game_state: lobby@.game_state,
                            current_player_count: lobby@.current_player_count,
                            ..old(self)@.directory[find_entry(old(self)@.directory, lobby@.name)]
                        },
                    )
                } else {
                    old(self)@.directory
                },
                ..old(self)@
            }),
    {
        match find_entry_index(&self.lobby_names_and_status, lobby.name.as_str()) {
            Some(i) => {
                self.lobby_names_and_status[i].game_state = lobby.game_state;
                self.lobby_names_and_status[i].current_player_count = lobby.current_player_count;
                assert(self@.directory =~= old(self)@.directory.update(
                    i as int,
                    LobbyEntryView {
                        game_state: lobby@.game_state,
                        current_player_count: lobby@.current_player_count,
                        ..old(self)@.directory[i as int]
                    },
                ));
            },
            None => {},
        }
    }

    /// A copy of the directory.
    pub fn get_lobby_names_and_status(&self) -> (list: Vec<LobbyEntry>)
        ensures
            entries(list@) == self@.directory,
    {
        let mut list: Vec<LobbyEntry> = Vec::new();
        let mut i: usize = 0;
        while i < self.lobby_names_and_status.len()
            invariant
                0 <= i <= self.lobby_names_and_status@.len(),
                list@.len() == i,
                forall|j: int| 0 <= j < i ==> (#[trigger] list@[j])@ == self@.directory[j],
            decreases self.lobby_names_and_status@.len() - i,
        {
            list.push(self.lobby_names_and_status[i].clone());
            i = i + 1;
        }
        assert(entries(list@) =~= self@.directory);
        list
    }

    /// Whether the directory holds a lobby of the given name.
    pub fn lobby_exists(&self, lobby_name: String) -> (exists: bool)
        ensures
            exists == (find_entry(self@.directory, lobby_name@) < self@.directory.len()),
            exists == (exists|i: int|
                0 <= i < self@.directory.len() && (#[trigger] self@.directory[i]).name
                    == lobby_name@),
    {
        proof {
            lemma_find_entry(self@.directory, lobby_name@, 0);
        }
        match find_entry_index(&self.lobby_names_and_status, lobby_name.as_str()) {
            Some(i) => {
                assert(self@.directory[i as int].name == lobby_name@);
                true
            },
            None => false,
        }
    }

    /// The place in the directory of the first lobby of the given name.
    pub fn get_lobby(&self, lobby_name: String) -> (place: Option<usize>)
        ensures
            match place {
                Some(i) => i == find_entry(self@.directory, lobby_name@) && i
                    < self@.directory.len() && self@.directory[i as int].name == lobby_name@,
                None => find_entry(self@.directory, lobby_name@) == self@.directory.len(),
            },
    {
        proof {
            lemma_find_entry(self@.directory, lobby_name@, 0);
        }
        find_entry_index(&self.lobby_names_and_status, lobby_name.as_str())
    }
}

} // verus!
