use tic_tac_toe::contract::{execute, instantiate, query};
use tic_tac_toe::data::GameResponse;
use tic_tac_toe::errors::ContractError;
use tic_tac_toe::msg::{
    ExecuteMsg, InstantiateMsg, MessageInfo, QueryAnswer, QueryKey, QueryMsg, Response,
};
use tic_tac_toe::state::{coins, Coin, Coord, Game, PlayerSymbol, Status};

const GAME_ID: u64 = 1;

fn mock_info(sender: &str, funds: &[Coin]) -> MessageInfo {
    MessageInfo { sender: String::from(sender), funds: funds.to_vec() }
}

fn games_of(answer: QueryAnswer) -> Vec<GameResponse> {
    match answer {
        QueryAnswer::Games(v) => v,
        QueryAnswer::ContractVersion(_) => panic!("expected a game listing"),
    }
}

#[test]
fn accept() {
    // GIVEN
    let host_info = mock_info("host", &coins(2, "token"));
    let opponent_info = mock_info("opponent", &coins(2, "token"));
    let (mut store, _) = instantiate(host_info.clone(), InstantiateMsg {});
    execute(
        &mut store,
        host_info,
        ExecuteMsg::Invite { coord: Coord { x: 2, y: 0 }, opponent: String::from("opponent") },
    )
    .unwrap();

    // WHEN
    let opponent_response = execute(
        &mut store,
        opponent_info,
        ExecuteMsg::Accept {
            coord: Coord { x: 1, y: 1 },
            host: String::from("host"),
            game_id: GAME_ID,
        },
    )
    .unwrap();
    let res = query(
        &store,
        QueryMsg::Game {
            key: QueryKey { host: String::from("host"), opponent: String::from("opponent") },
            game_id: GAME_ID,
        },
    );

    // THEN
    let query_value: Vec<GameResponse> = games_of(res.unwrap());
    assert_eq!(
        opponent_response,
        Response::new()
            .add_attribute("method", "accept")
            .add_attribute("x", "1")
            .add_attribute("y", "1")
            .add_attribute("opponent", "host")
    );
    assert_eq!(
        query_value,
        vec![GameResponse {
            host: String::from("host"),
            opponent: String::from("opponent"),
            game: Game {
                board: vec![
                    vec![None, None, Some(PlayerSymbol::X)],
                    vec![None, Some(PlayerSymbol::O), None],
                    vec![None, None, None]
                ],
                player_round: Some(PlayerSymbol::X),
                host_symbol: PlayerSymbol::X,
                prize: coins(4, "token"),
                status: Status::PLAYING,
                winner: None
            }
        }]
    );
}

#[test]
fn accept_with_incorrect_host() {
    // GIVEN
    let host_info = mock_info("host", &coins(2, "token"));
    let opponent_info = mock_info("opponent", &coins(2, "token"));
    let (mut store, _) = instantiate(host_info.clone(), InstantiateMsg {});
    execute(
        &mut store,
        host_info,
        ExecuteMsg::Invite { coord: Coord { x: 2, y: 0 }, opponent: String::from("opponent") },
    )
    .unwrap();

    // WHEN
    let opponent_response = execute(
        &mut store,
        opponent_info,
        ExecuteMsg::Accept {
            coord: Coord { x: 2, y: 2 },
            host: String::from("w"),
            game_id: GAME_ID,
        },
    );

    // THEN
    let value: ContractError = opponent_response.unwrap_err();
    assert_eq!(
        value,
        ContractError::Std { msg: String::from("Invalid input: human address too short") }
    );
}

#[test]
fn accept_inexistent() {
    // GIVEN
    let host_info = mock_info("host", &coins(2, "token"));
    let opponent_info = mock_info("opponent", &coins(2, "token"));
    let (mut store, _) = instantiate(host_info, InstantiateMsg {});

    // WHEN
    let game_id: u64 = 1;
    let opponent_response = execute(
        &mut store,
        opponent_info,
        ExecuteMsg::Accept { coord: Coord { x: 1, y: 1 }, host: String::from("host"), game_id },
    );

    // THEN
    let value: ContractError = opponent_response.unwrap_err();
    assert_eq!(
        value,
        ContractError::InvalidGame {
            host: String::from("opponent"),
            opponent: String::from("host")
        }
    );
}

#[test]
fn accept_with_incorrect_coord() {
    // GIVEN
    let host_info = mock_info("host", &coins(2, "token"));
    let opponent_info = mock_info("opponent", &coins(2, "token"));
    let (mut store, _) = instantiate(host_info.clone(), InstantiateMsg {});
    execute(
        &mut store,
        host_info,
        ExecuteMsg::Invite { coord: Coord { x: 2, y: 0 }, opponent: String::from("opponent") },
    )
    .unwrap();

    // WHEN
    let game_id: u64 = 1;
    let opponent_response = execute(
        &mut store,
        opponent_info,
        ExecuteMsg::Accept { coord: Coord { x: 5, y: 5 }, host: String::from("host"), game_id },
    );

    // THEN
    let value: ContractError = opponent_response.unwrap_err();
    assert_eq!(value, ContractError::InvalidCoord { coord: Coord { x: 5, y: 5 } });
}

#[test]
fn accept_on_already_played_coords() {
    // GIVEN
    let host_info = mock_info("host", &coins(2, "token"));
    let opponent_info = mock_info("opponent", &coins(2, "token"));
    let (mut store, _) = instantiate(host_info.clone(), InstantiateMsg {});
    execute(
        &mut store,
        host_info,
        ExecuteMsg::Invite { coord: Coord { x: 2, y: 0 }, opponent: String::from("opponent") },
    )
    .unwrap();

    // WHEN
    let game_id: u64 = 1;
    let opponent_response = execute(
        &mut store,
        opponent_info,
        ExecuteMsg::Accept { coord: Coord { x: 2, y: 0 }, host: String::from("host"), game_id },
    );

    // THEN
    let value: ContractError = opponent_response.unwrap_err();
    assert_eq!(value, ContractError::CoordinateAlreadyPlayed { coord: Coord { x: 2, y: 0 } });
}

#[test]
fn accept_with_less_funds() {
    // GIVEN
    let host_info = mock_info("host", &coins(2, "token"));
    let opponent_info = mock_info("opponent", &coins(1, "token"));
    let (mut store, _) = instantiate(host_info.clone(), InstantiateMsg {});
    execute(
        &mut store,
        host_info,
        ExecuteMsg::Invite { coord: Coord { x: 2, y: 0 }, opponent: String::from("opponent") },
    )
    .unwrap();

    // WHEN
    let game_id: u64 = 1;
    let opponent_response = execute(
        &mut store,
        opponent_info,
        ExecuteMsg::Accept { coord: Coord { x: 1, y: 2 }, host: String::from("host"), game_id },
    );

    // THEN
    let value: ContractError = opponent_response.unwrap_err();
    assert_eq!(value, ContractError::InvalidReceivedFunds {});
}

#[test]
fn accept_with_more_funds() {
    // GIVEN
    let host_info = mock_info("host", &coins(2, "token"));
    let opponent_info = mock_info("opponent", &coins(3, "token"));
    let (mut store, _) = instantiate(host_info.clone(), InstantiateMsg {});
    execute(
        &mut store,
        host_info,
        ExecuteMsg::Invite { coord: Coord { x: 2, y: 0 }, opponent: String::from("opponent") },
    )
    .unwrap();

    // WHEN
    let game_id: u64 = 1;
    let opponent_response = execute(
        &mut store,
        opponent_info,
        ExecuteMsg::Accept { coord: Coord { x: 1, y: 2 }, host: String::from("host"), game_id },
    );

    // THEN
    let value: ContractError = opponent_response.unwrap_err();
    assert_eq!(value, ContractError::InvalidReceivedFunds {});
}

#[test]
fn accept_with_different_funds() {
    // GIVEN
    let host_info = mock_info("host", &coins(2, "token"));
    let opponent_info = mock_info("opponent", &coins(2, "w"));
    let (mut store, _) = instantiate(host_info.clone(), InstantiateMsg {});
    execute(
        &mut store,
        host_info,
        ExecuteMsg::Invite { coord: Coord { x: 2, y: 0 }, opponent: String::from("opponent") },
    )
    .unwrap();

    // WHEN
    let game_id: u64 = 1;
    let opponent_response = execute(
        &mut store,
        opponent_info,
        ExecuteMsg::Accept { coord: Coord { x: 1, y: 2 }, host: String::from("host"), game_id },
    );

    // THEN
    let value: ContractError = opponent_response.unwrap_err();
    assert_eq!(value, ContractError::InvalidReceivedFunds {});
}

#[test]
fn query_by_invalid_host() {
    // GIVEN
    let msg = InstantiateMsg {};
    let info = mock_info("host", &coins(2, "token"));
    let (store, _) = instantiate(info, msg);

    // WHEN
    let res = query(
        &store,
        QueryMsg::Game {
            key: QueryKey { host: String::from("w"), opponent: String::from("opponent") },
            game_id: GAME_ID,
        },
    );

    // THEN
    assert_eq!(
        res.unwrap_err(),
        ContractError::Std { msg: String::from("Invalid input: human address too short") }
    );
}

#[test]
fn query_by_invalid_opponent() {
    // GIVEN
    let msg = InstantiateMsg {};
    let info = mock_info("host", &coins(2, "token"));
    let (store, _) = instantiate(info, msg);

    // WHEN
    let res = query(
        &store,
        QueryMsg::Game {
            key: QueryKey { host: String::from("host"), opponent: String::from("w") },
            game_id: GAME_ID,
        },
    );

    // THEN
    assert_eq!(
        res.unwrap_err(),
        ContractError::Std { msg: String::from("Invalid input: human address too short") }
    );
}
