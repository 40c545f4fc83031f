use vstd::prelude::*;

use crate::errors::ContractError;
use crate::execution::{
    accept_post, execute_requires, invite_post, play_post, reject_post, try_accept, try_invite,
    try_play, try_reject,
};
use crate::msg::{
    attr, AttributeV, ContractVersionV, ExecuteMsg, InstantiateMsg, MessageInfo, MessageInfoV,
    QueryAnswer, QueryAnswerV, QueryMsg, Response,
};
use crate::query::{query_game, query_game_post, query_games, query_games_post};
use crate::store::{store_wf, GameStore, StoreV};

verus! {

/// What `execute` guarantees: the acted-on handler's contract, by action.
pub open spec fn execute_post(
    s0: StoreV,
    s1: StoreV,
    info: MessageInfoV,
    msg: ExecuteMsg,
    r: Result<Response, ContractError>,
) -> bool {
    match msg {
        ExecuteMsg::Invite { coord, opponent } => invite_post(s0, s1, info, coord, opponent@, r),
        ExecuteMsg::Reject { as_host, opponent, game_id } => reject_post(
            s0,
            s1,
            info,
            as_host,
            opponent@,
            game_id,
            r,
        ),
        ExecuteMsg::Accept { coord, host, game_id } => accept_post(
            s0,
            s1,
            info,
            coord,
            host@,
            game_id,
            r,
        ),
        ExecuteMsg::Play { as_host, coord, opponent, game_id } => play_post(
            s0,
            s1,
            info,
            as_host,
            coord,
            opponent@,
            game_id,
            r,
        ),
    }
}

/// Sets the module up: an empty store, the counter at zero, the version
/// record written.
pub fn instantiate(_info: MessageInfo, _msg: InstantiateMsg) -> (r: (GameStore, Response))
    ensures
        store_wf(r.0@),
        r.0@.games.len() == 0,
        r.0@.games_count == 0,
        r.0@.version == (ContractVersionV { contract: "tic-tac-toe"@, version: "0.1.0"@ }),
        r.1@.messages.len() == 0,
        r.1@.attributes == seq![attr("action"@, "tic-tac-toe"@)],
{
    let store = GameStore::empty("tic-tac-toe", "0.1.0");
    let resp = Response::new().add_attribute("action", "tic-tac-toe");
    proof {
        assert(resp@.attributes =~= seq![attr("action"@, "tic-tac-toe"@)]);
    }
    (store, resp)
}

/// Routes an action to its handler.
pub fn execute(store: &mut GameStore, info: MessageInfo, msg: ExecuteMsg) -> (r: Result<
    Response,
    ContractError,
>)
    requires
        store_wf(old(store)@),
        execute_requires(old(store)@, info@, msg),
    ensures
        store_wf(final(store)@),
        execute_post(old(store)@, final(store)@, info@, msg, r),
{
    match msg {
        ExecuteMsg::Invite { coord, opponent } => try_invite(store, info, coord, opponent),
        ExecuteMsg::Reject { as_host, opponent, game_id } => try_reject(
            store,
            info,
            as_host,
            opponent,
            game_id,
        ),
        ExecuteMsg::Accept { coord, host, game_id } => try_accept(store, info, coord, host, game_id),
        ExecuteMsg::Play { as_host, coord, opponent, game_id } => try_play(
            store,
            info,
            as_host,
            coord,
            opponent,
            game_id,
        ),
    }
}

/// What `query` returns, by request.
pub open spec fn query_post(s: StoreV, msg: QueryMsg, r: Result<QueryAnswer, ContractError>) -> bool {
    match msg {
        QueryMsg::GetContractVersion {} => match r {
            Ok(a) => a@ == QueryAnswerV::ContractVersion(s.version),
            Err(_) => false,
        },
        QueryMsg::Game { key, game_id } => match r {
            Ok(a) => match a@ {
                QueryAnswerV::Games(v) => {
                    &&& (crate::api::is_ascii_seq(key.host@) ==> crate::api::mock_addr_valid(
                        key.host@,
                    ))
                    &&& (crate::api::is_ascii_seq(key.opponent@) ==> crate::api::mock_addr_valid(
                        key.opponent@,
                    ))
                    &&& crate::query::game_lookup_views(s.games, key.host@, key.opponent@, game_id, v)
                },
                _ => false,
            },
            Err(e) => query_game_post(
                s.games,
                key.host@,
                key.opponent@,
                game_id,
                Err::<Vec<crate::data::GameResponse>, ContractError>(e),
            ),
        },
        QueryMsg::Games { status } => match r {
            Ok(a) => match a@ {
                QueryAnswerV::Games(v) => v == crate::query::games_list(s.games, status),
                _ => false,
            },
            Err(_) => false,
        },
    }
}

/// Routes a read-only lookup.
pub fn query(store: &GameStore, msg: QueryMsg) -> (r: Result<QueryAnswer, ContractError>)
    ensures
        query_post(store@, msg, r),
{
    match msg {
        QueryMsg::GetContractVersion {} => Ok(
            QueryAnswer::ContractVersion(store.contract_version()),
        ),
        QueryMsg::Game { key, game_id } => match query_game(store, key, game_id) {
            Ok(v) => {
                let a = QueryAnswer::Games(v);
                Ok(a)
            },
            Err(e) => Err(e),
        },
        QueryMsg::Games { status } => match query_games(store, status) {
            Ok(v) => Ok(QueryAnswer::Games(v)),
            Err(e) => Err(e),
        },
    }
}

} // verus!
