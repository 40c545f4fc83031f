use vstd::prelude::*;

use crate::data::GameResponse;
use crate::msg::{ContractVersion, ContractVersionV};
use crate::order::{key_less, key_lt, lemma_key_lt_connex, lemma_key_lt_transitive};
use crate::state::{game_wf, Game, GameV};

verus! {

/// One persisted record: a game under its composite key.
pub struct GameEntry {
    pub host: String,
    pub opponent: String,
    pub game_id: u64,
    pub game: Game,
}

pub struct EntryV {
    pub host: Seq<char>,
    pub opponent: Seq<char>,
    pub game_id: u64,
    pub game: GameV,
}

impl View for GameEntry {
    type V = EntryV;

    open spec fn view(&self) -> EntryV {
        EntryV {
            host: self.host@,
            opponent: self.opponent@,
            game_id: self.game_id,
            game: self.game@,
        }
    }
}

/// The composite key a game is stored under.
pub type KeyV = (Seq<char>, Seq<char>, u64);

pub open spec fn entry_key(e: EntryV) -> KeyV {
    (e.host, e.opponent, e.game_id)
}

/// The index of the first entry stored under `k`, or `s.len()` if none is.
pub open spec fn find_index(s: Seq<EntryV>, k: KeyV) -> int
    decreases s.len(),
{
    if s.len() == 0 {
        0
    } else if entry_key(s[0]) == k {
        0
    } else {
        1 + find_index(s.drop_first(), k)
    }
}

/// The game stored under `k`, if any.
pub open spec fn lookup(s: Seq<EntryV>, k: KeyV) -> Option<GameV> {
    if find_index(s, k) < s.len() {
        Some(s[find_index(s, k)].game)
    } else {
        None
    }
}

pub proof fn lemma_find_index(s: Seq<EntryV>, k: KeyV)
    ensures
        0 <= find_index(s, k) <= s.len(),
        find_index(s, k) < s.len() ==> entry_key(s[find_index(s, k)]) == k,
        forall|j: int| 0 <= j < find_index(s, k) ==> entry_key(#[trigger] s[j]) != k,
    decreases s.len(),
{
    if s.len() > 0 && entry_key(s[0]) != k {
        lemma_find_index(s.drop_first(), k);
        assert forall|j: int| 0 <= j < find_index(s, k) implies entry_key(#[trigger] s[j]) != k by {
            if j > 0 {
                assert(s[j] == s.drop_first()[j - 1]);
            }
        }
    }
}

/// `find_index` after an update elsewhere, or of the updated entry itself,
/// stays put when keys are unchanged.
pub proof fn lemma_find_index_update(s: Seq<EntryV>, k: KeyV, i: int, e: EntryV)
    requires
        0 <= i < s.len(),
        entry_key(e) == entry_key(s[i]),
    ensures
        find_index(s.update(i, e), k) == find_index(s, k),
    decreases s.len(),
{
    let s2 = s.update(i, e);
    assert(s2.len() == s.len());
    if s.len() > 0 {
        if i == 0 {
            assert(s2[0] == e);
            if entry_key(s[0]) != k {
                assert(s2.drop_first() =~= s.drop_first());
            }
        } else {
            assert(s2[0] == s[0]);
            if entry_key(s[0]) != k {
                assert(s2.drop_first() =~= s.drop_first().update(i - 1, e));
                assert(s.drop_first()[i - 1] == s[i]);
                lemma_find_index_update(s.drop_first(), k, i - 1, e);
            }
        }
    }
}


/// Replacing the entry at `i` by one under the same key changes only that
/// key's lookup.
pub proof fn lemma_lookup_update(s: Seq<EntryV>, i: int, e: EntryV, k: KeyV)
    requires
        0 <= i < s.len(),
        entry_key(e) == entry_key(s[i]),
        forall|a: int, b: int|
            0 <= a < b < s.len() ==> entry_key(#[trigger] s[a]) != entry_key(#[trigger] s[b]),
    ensures
        entry_key(e) == k ==> lookup(s.update(i, e), k) == Some(e.game),
        entry_key(e) != k ==> lookup(s.update(i, e), k) == lookup(s, k),
{
    lemma_find_index_update(s, k, i, e);
    lemma_find_index(s, k);
    let s2 = s.update(i, e);
    let fi = find_index(s, k);
    if entry_key(e) == k {
        assert(fi < s.len()) by {
            if fi == s.len() {
                assert(entry_key(s[i]) != k);
            }
        }
        assert(fi == i) by {
            if fi != i {
                assert(entry_key(s[fi]) == k);
                assert(entry_key(s[i]) == k);
            }
        }
        assert(s2[i] == e);
    } else {
        if fi < s.len() {
            assert(fi != i) by {
                if fi == i {
                    assert(entry_key(s[i]) == k);
                }
            }
            assert(s2[fi] == s[fi]);
        }
    }
}


/// Where a fresh key belongs in the sorted store: the first index whose key
/// lies above it, or the end.
pub open spec fn insert_pos(s: Seq<EntryV>, k: KeyV) -> int
    decreases s.len(),
{
    if s.len() == 0 {
        0
    } else if key_lt(k, entry_key(s[0])) {
        0
    } else {
        1 + insert_pos(s.drop_first(), k)
    }
}

pub proof fn lemma_insert_pos(s: Seq<EntryV>, k: KeyV)
    ensures
        0 <= insert_pos(s, k) <= s.len(),
        insert_pos(s, k) < s.len() ==> key_lt(k, entry_key(s[insert_pos(s, k)])),
        forall|j: int| 0 <= j < insert_pos(s, k) ==> !key_lt(k, entry_key(#[trigger] s[j])),
    decreases s.len(),
{
    if s.len() > 0 && !key_lt(k, entry_key(s[0])) {
        lemma_insert_pos(s.drop_first(), k);
        assert forall|j: int| 0 <= j < insert_pos(s, k) implies !key_lt(
            k,
            entry_key(#[trigger] s[j]),
        ) by {
            if j > 0 {
                assert(s[j] == s.drop_first()[j - 1]);
            }
        }
    }
}

/// Looking past a non-matching head entry.
proof fn lemma_lookup_step(s: Seq<EntryV>, k: KeyV)
    requires
        s.len() > 0,
        entry_key(s[0]) != k,
    ensures
        lookup(s, k) == lookup(s.drop_first(), k),
        find_index(s, k) == s.len() ==> find_index(s.drop_first(), k) == s.drop_first().len(),
{
    lemma_find_index(s.drop_first(), k);
    if find_index(s.drop_first(), k) < s.drop_first().len() {
        assert(s[1 + find_index(s.drop_first(), k)] == s.drop_first()[find_index(
            s.drop_first(),
            k,
        )]);
    }
}

/// Inserting a record leaves every other key's lookup unchanged; a key not
/// yet present becomes visible at the inserted record.
pub proof fn lemma_lookup_insert(s: Seq<EntryV>, p: int, e: EntryV, k: KeyV)
    requires
        0 <= p <= s.len(),
    ensures
        entry_key(e) != k ==> lookup(s.insert(p, e), k) == lookup(s, k),
        entry_key(e) == k && find_index(s, k) == s.len() ==> lookup(s.insert(p, e), k) == Some(
            e.game,
        ),
    decreases s.len(),
{
    let s2 = s.insert(p, e);
    s.insert_ensures(p, e);
    lemma_find_index(s, k);
    lemma_find_index(s2, k);
    if p == 0 {
        assert(s2[0] == e);
        assert(s2.drop_first() =~= s);
        if entry_key(e) != k {
            lemma_lookup_step(s2, k);
        }
    } else {
        assert(s2[0] == s[0]);
        assert(s2.drop_first() =~= s.drop_first().insert(p - 1, e));
        if entry_key(s[0]) == k {
            assert(lookup(s, k) == Some(s[0].game));
            assert(lookup(s2, k) == Some(s2[0].game));
        } else {
            lemma_lookup_step(s, k);
            lemma_lookup_step(s2, k);
            lemma_lookup_insert(s.drop_first(), p - 1, e, k);
        }
    }
}

/// The persisted state: the version record, the per-host invite counter, and
/// every game keyed by (host, opponent, id).
pub struct GameStore {
    games: Vec<GameEntry>,
    games_count: u64,
    version: ContractVersion,
}

pub struct StoreV {
    pub games: Seq<EntryV>,
    pub games_count: u64,
    pub version: ContractVersionV,
}

impl View for GameStore {
    type V = StoreV;

    closed spec fn view(&self) -> StoreV {
        StoreV {
            games: self.games@.map(|i: int, e: GameEntry| e@),
            games_count: self.games_count,
            version: self.version@,
        }
    }
}

/// Well-formedness of the persisted state: keys unique, ids within the
/// counter, every stored game well formed.
pub open spec fn store_wf(s: StoreV) -> bool {
    &&& forall|i: int, j: int|
        0 <= i < j < s.games.len() ==> entry_key(#[trigger] s.games[i]) != entry_key(
            #[trigger] s.games[j],
        )
    &&& forall|i: int, j: int|
        0 <= i < j < s.games.len() ==> key_lt(
            entry_key(#[trigger] s.games[i]),
            entry_key(#[trigger] s.games[j]),
        )
    &&& forall|i: int| 0 <= i < s.games.len() ==> game_wf((#[trigger] s.games[i]).game)
    &&& forall|i: int|
        0 <= i < s.games.len() ==> 1 <= (#[trigger] s.games[i]).game_id <= s.games_count
}

impl GameStore {
    /// The empty store written at instantiation.
    pub fn empty(contract: &str, version: &str) -> (r: GameStore)
        ensures
            r@.games =~= Seq::<EntryV>::empty(),
            r@.games_count == 0,
            r@.version == (ContractVersionV { contract: contract@, version: version@ }),
            store_wf(r@),
    {
        GameStore {
            games: Vec::new(),
            games_count: 0,
            version: ContractVersion {
                contract: String::from_str(contract),
                version: String::from_str(version),
            },
        }
    }

    /// The version record written at instantiation.
    pub fn contract_version(&self) -> (r: ContractVersion)
        ensures
            r@ == self@.version,
    {
        ContractVersion {
            contract: self.version.contract.clone(),
            version: self.version.version.clone(),
        }
    }

    /// How many games the store holds.
    pub fn games_len(&self) -> (r: usize)
        ensures
            r == self@.games.len(),
    {
        self.games.len()
    }

    /// The id the latest invitation drew; zero before the first.
    pub fn count(&self) -> (r: u64)
        ensures
            r == self@.games_count,
    {
        self.games_count
    }

    /// Draws the next game id: the per-host counter moves up by one.
    pub fn next_game_id(&mut self) -> (r: u64)
        requires
            old(self)@.games_count < u64::MAX,
        ensures
            r == old(self)@.games_count + 1,
            final(self)@.games_count == old(self)@.games_count + 1,
            final(self)@.games == old(self)@.games,
            final(self)@.version == old(self)@.version,
    {
        self.games_count = self.games_count + 1;
        self.games_count
    }

    /// Looks a key up: the index of its record, if one exists.
    pub fn find_entry(&self, host: &String, opponent: &String, game_id: u64) -> (r: Option<usize>)
        ensures
            ({
                let k = (host@, opponent@, game_id);
                let fi = find_index(self@.games, k);
                match r {
                    Some(i) => i == fi && fi < self@.games.len(),
                    None => fi == self@.games.len(),
                }
            }),
    {
        let ghost k: KeyV = (host@, opponent@, game_id);
        proof {
            lemma_find_index(self@.games, k);
        }
        let n = self.games.len();
        let mut i: usize = 0;
        while i < n
            invariant
                i <= n,
                n == self.games@.len(),
                self@.games.len() == n,
                forall|j: int| 0 <= j < i ==> entry_key(#[trigger] self@.games[j]) != k,
                k == (host@, opponent@, game_id),
            decreases n - i,
        {
            proof {
                assert(self@.games[i as int] == self.games@[i as int]@);
            }
            let e = &self.games[i];
            if e.host == *host && e.opponent == *opponent && e.game_id == game_id {
                proof {
                    lemma_find_index(self@.games, k);
                    assert(entry_key(self@.games[i as int]) == k);
                }
                return Some(i);
            }
            i = i + 1;
        }
        proof {
            lemma_find_index(self@.games, k);
        }
        None
    }

    /// The game stored at index `i`.
    pub fn game_at(&self, i: usize) -> (r: &Game)
        requires
            i < self@.games.len(),
        ensures
            r@ == self@.games[i as int].game,
    {
        proof {
            assert(self@.games[i as int] == self.games@[i as int]@);
        }
        &self.games[i].game
    }

    /// The full record at index `i`, as a query reports it.
    pub fn response_at(&self, i: usize) -> (r: GameResponse)
        requires
            i < self@.games.len(),
        ensures
            r@.game == self@.games[i as int].game,
            r@.host == self@.games[i as int].host,
            r@.opponent == self@.games[i as int].opponent,
    {
        proof {
            assert(self@.games[i as int] == self.games@[i as int]@);
        }
        let e = &self.games[i];
        GameResponse {
            game: e.game.duplicate(),
            host: e.host.clone(),
            opponent: e.opponent.clone(),
        }
    }

    /// Replaces the game at index `i`; the key above it is untouched.
    pub fn replace_game(&mut self, i: usize, game: Game)
        requires
            i < old(self)@.games.len(),
        ensures
            final(self)@.games =~= old(self)@.games.update(
                i as int,
                (EntryV {
                    host: old(self)@.games[i as int].host,
                    opponent: old(self)@.games[i as int].opponent,
                    game_id: old(self)@.games[i as int].game_id,
                    game: game@,
                }),
            ),
            final(self)@.games_count == old(self)@.games_count,
            final(self)@.version == old(self)@.version,
    {
        proof {
            assert(self@.games[i as int] == self.games@[i as int]@);
        }
        self.games[i].game = game;
        proof {
            assert forall|j: int| 0 <= j < self@.games.len() implies self@.games[j] == old(
                self,
            )@.games.update(
                i as int,
                EntryV {
                    host: old(self)@.games[i as int].host,
                    opponent: old(self)@.games[i as int].opponent,
                    game_id: old(self)@.games[i as int].game_id,
                    game: game@,
                },
            )[j] by {
                assert(self@.games[j] == self.games@[j]@);
                if j != i {
                    assert(old(self)@.games[j] == old(self).games@[j]@);
                }
            }
        }
    }


    /// Hands the persisted state out, for the surrounding layer to serialize.
    pub fn into_parts(self) -> (r: (Vec<GameEntry>, u64, ContractVersion))
        ensures
            r.0@.map(|i: int, e: GameEntry| e@) == self@.games,
            r.1 == self@.games_count,
            r.2@ == self@.version,
    {
        (self.games, self.games_count, self.version)
    }

    /// Rebuilds the persisted state from its parts, as the surrounding layer
    /// loads them back.
    pub fn from_parts(games: Vec<GameEntry>, games_count: u64, version: ContractVersion) -> (r:
        GameStore)
        ensures
            r@.games == games@.map(|i: int, e: GameEntry| e@),
            r@.games_count == games_count,
            r@.version == version@,
    {
        GameStore { games, games_count, version }
    }



    /// Where the key belongs in the key order: the first index whose key lies
    /// above it.
    fn find_insert_pos(&self, host: &String, opponent: &String, game_id: u64) -> (r: usize)
        ensures
            r == insert_pos(self@.games, (host@, opponent@, game_id)),
    {
        let ghost k: KeyV = (host@, opponent@, game_id);
        let ghost s = self@.games;
        let n = self.games.len();
        let mut i: usize = 0;
        while i < n
            invariant
                i <= n,
                n == self.games@.len(),
                self@.games == s,
                k == (host@, opponent@, game_id),
                forall|j: int| 0 <= j < i ==> !key_lt(k, entry_key(#[trigger] s[j])),
            decreases n - i,
        {
            proof {
                assert(s[i as int] == self.games@[i as int]@);
            }
            let e = &self.games[i];
            if key_less(host, opponent, game_id, &e.host, &e.opponent, e.game_id) {
                proof {
                    lemma_insert_pos(s, k);
                    let p = insert_pos(s, k);
                    if p < i as int {
                        assert(key_lt(k, entry_key(s[p])));
                    } else if (i as int) < p {
                        assert(!key_lt(k, entry_key(s[i as int])));
                    }
                }
                return i;
            }
            i = i + 1;
        }
        proof {
            lemma_insert_pos(s, k);
            let p = insert_pos(s, k);
            if p < n as int {
                assert(key_lt(k, entry_key(s[p])));
            }
        }
        n
    }

    /// Inserts a record under a key not yet present, at its place in the key
    /// order.
    pub fn insert_game(&mut self, host: String, opponent: String, game_id: u64, game: Game)
        requires
            store_wf(old(self)@),
            forall|i: int|
                0 <= i < old(self)@.games.len() ==> entry_key(#[trigger] old(self)@.games[i]) != (
                    host@,
                    opponent@,
                    game_id,
                ),
        ensures
            final(self)@.games =~= old(self)@.games.insert(
                insert_pos(old(self)@.games, (host@, opponent@, game_id)),
                (EntryV { host: host@, opponent: opponent@, game_id, game: game@ }),
            ),
            final(self)@.games_count == old(self)@.games_count,
            final(self)@.version == old(self)@.version,
    {
        let ghost k: KeyV = (host@, opponent@, game_id);
        let ghost s = self@.games;
        proof {
            lemma_insert_pos(s, k);
        }
        let i = self.find_insert_pos(&host, &opponent, game_id);
        let ghost e = EntryV { host: host@, opponent: opponent@, game_id, game: game@ };
        self.games.insert(i, GameEntry { host, opponent, game_id, game });
        proof {
            s.insert_ensures(i as int, e);
            assert forall|j: int| 0 <= j < self@.games.len() implies self@.games[j] == s.insert(
                i as int,
                e,
            )[j] by {
                assert(self@.games[j] == self.games@[j]@);
                if j < i as int {
                    assert(self.games@[j] == old(self).games@[j]);
                    assert(s[j] == old(self).games@[j]@);
                } else if j > i as int {
                    assert(self.games@[j] == old(self).games@[j - 1]);
                    assert(s[j - 1] == old(self).games@[j - 1]@);
                }
            }
        }
    }

}

} // verus!
