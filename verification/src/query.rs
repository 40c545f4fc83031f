use vstd::prelude::*;

use crate::api::{is_ascii_seq, mock_addr_err, mock_addr_valid, validate_address};
use crate::data::{GameResponse, GameResponseV};
use crate::errors::{ContractError, ErrorV};
use crate::msg::QueryKey;
use crate::state::Status;
use crate::store::{find_index, lemma_find_index, lookup, EntryV, GameStore, KeyV};

verus! {

pub open spec fn response_of(e: EntryV) -> GameResponseV {
    GameResponseV { game: e.game, host: e.host, opponent: e.opponent }
}

pub open spec fn response_views(v: Seq<GameResponse>) -> Seq<GameResponseV> {
    v.map(|i: int, g: GameResponse| g@)
}

/// Whether a record passes the optional status filter.
pub open spec fn status_matches(e: EntryV, st: Option<Status>) -> bool {
    match st {
        Some(t) => e.game.status == t,
        None => true,
    }
}

/// The records a listing returns: all games in store order, narrowed by the
/// optional status filter.
pub open spec fn games_list(s: Seq<EntryV>, st: Option<Status>) -> Seq<GameResponseV>
    decreases s.len(),
{
    if s.len() == 0 {
        Seq::empty()
    } else if status_matches(s.last(), st) {
        games_list(s.drop_last(), st).push(response_of(s.last()))
    } else {
        games_list(s.drop_last(), st)
    }
}

/// The shape of a single-game lookup's result: one record holding exactly the
/// stored game, or none.
pub open spec fn game_lookup_views(
    s: Seq<EntryV>,
    host: Seq<char>,
    opponent: Seq<char>,
    game_id: u64,
    v: Seq<GameResponseV>,
) -> bool {
    match lookup(s, (host, opponent, game_id)) {
        Some(g) => {
            &&& v.len() == 1
            &&& v[0].game == g
            &&& v[0].host == host
            &&& v[0].opponent == opponent
        },
        None => v.len() == 0,
    }
}

/// What `query_game` returns: the single record under the key, or nothing;
/// an error only for an identifier the host environment rejects.
pub open spec fn query_game_post(
    s: Seq<EntryV>,
    host: Seq<char>,
    opponent: Seq<char>,
    game_id: u64,
    r: Result<Vec<GameResponse>, ContractError>,
) -> bool {
    let k = (host, opponent, game_id);
    match r {
        Ok(v) => {
            &&& (is_ascii_seq(host) ==> mock_addr_valid(host))
            &&& (is_ascii_seq(opponent) ==> mock_addr_valid(opponent))
            &&& game_lookup_views(s, host, opponent, game_id, response_views(v@))
        },
        Err(e) => match e@ {
            ErrorV::Std { msg } => {
                &&& !(is_ascii_seq(host) && mock_addr_valid(host)) || !(is_ascii_seq(opponent)
                    && mock_addr_valid(opponent))
                &&& (is_ascii_seq(host) && !mock_addr_valid(host) ==> msg == mock_addr_err(host))
                &&& (is_ascii_seq(host) && mock_addr_valid(host) && is_ascii_seq(opponent)
                    ==> !mock_addr_valid(opponent) && msg == mock_addr_err(opponent))
            },
            _ => false,
        },
    }
}

/// Fetches the single game under (host, opponent, id); an empty result, not
/// an error, when no such game exists.
pub fn query_game(store: &GameStore, key: QueryKey, game_id: u64) -> (r: Result<
    Vec<GameResponse>,
    ContractError,
>)
    ensures
        query_game_post(store@.games, key.host@, key.opponent@, game_id, r),
{
    let host_address = match validate_address(key.host.as_str()) {
        Ok(a) => a,
        Err(msg) => {
            return Err(ContractError::Std { msg });
        },
    };
    let opponent_address = match validate_address(key.opponent.as_str()) {
        Ok(a) => a,
        Err(msg) => {
            return Err(ContractError::Std { msg });
        },
    };
    let ghost k: KeyV = (key.host@, key.opponent@, game_id);
    let mut res: Vec<GameResponse> = Vec::new();
    match store.find_entry(&host_address, &opponent_address, game_id) {
        Some(i) => {
            proof {
                lemma_find_index(store@.games, k);
            }
            let mut one = store.response_at(i);
            one.host = host_address;
            one.opponent = opponent_address;
            res.push(one);
        },
        None => {},
    }
    Ok(res)
}

/// What `query_games` returns: every record, in store order, narrowed by the
/// optional status filter; never an error.
pub open spec fn query_games_post(
    s: Seq<EntryV>,
    status: Option<Status>,
    r: Result<Vec<GameResponse>, ContractError>,
) -> bool {
    match r {
        Ok(v) => response_views(v@) == games_list(s, status),
        Err(_) => false,
    }
}

/// Lists all games in store order — ascending by (host, opponent, id), the
/// order the store keeps — optionally narrowed to one status.
pub fn query_games(store: &GameStore, status: Option<Status>) -> (r: Result<
    Vec<GameResponse>,
    ContractError,
>)
    ensures
        query_games_post(store@.games, status, r),
{
    let ghost s = store@.games;
    let mut res: Vec<GameResponse> = Vec::new();
    let n = store.games_len();
    let mut i: usize = 0;
    while i < n
        invariant
            i <= n,
            n == s.len(),
            s == store@.games,
            response_views(res@) == games_list(s.take(i as int), status),
        decreases n - i,
    {
        let ghost prefix = s.take(i as int);
        let ghost prefix1 = s.take(i as int + 1);
        proof {
            assert(prefix1.drop_last() =~= prefix);
            assert(prefix1.last() == s[i as int]);
        }
        let keep = match status {
            Some(t) => store.game_at(i).status == t,
            None => true,
        };
        if keep {
            let one = store.response_at(i);
            res.push(one);
            proof {
                assert forall|j: int| 0 <= j < res@.len() implies response_views(res@)[j]
                    == games_list(prefix1, status)[j] by {
                    assert(response_views(res@)[j] == res@[j]@);
                    if j < res@.len() - 1 {
                        assert(games_list(prefix, status)[j] == response_views(res@.drop_last())[j]);
                        assert(res@.drop_last()[j]@ == res@[j]@);
                    }
                }
                assert(response_views(res@) =~= games_list(prefix1, status));
            }
        } else {
            proof {
                assert(games_list(prefix1, status) == games_list(prefix, status));
            }
        }
        i = i + 1;
    }
    proof {
        assert(s.take(n as int) =~= s);
    }
    Ok(res)
}

} // verus!
