use tic_tac_toe::contract::{execute, instantiate, query};
use tic_tac_toe::data::GameResponse;
use tic_tac_toe::digits::u64_to_string;
use tic_tac_toe::errors::ContractError;
use tic_tac_toe::msg::{
    BankMsg, ContractVersion, ExecuteMsg, InstantiateMsg, MessageInfo, QueryAnswer, QueryKey,
    QueryMsg, Response,
};
use tic_tac_toe::state::{coins, detect_winner, is_full, Coin, Coord, PlayerSymbol, Status};

fn mock_info(sender: &str, funds: &[Coin]) -> MessageInfo {
    MessageInfo { sender: String::from(sender), funds: funds.to_vec() }
}

fn games_of(answer: QueryAnswer) -> Vec<GameResponse> {
    match answer {
        QueryAnswer::Games(v) => v,
        QueryAnswer::ContractVersion(_) => panic!("expected a game listing"),
    }
}

fn fetch(
    store: &tic_tac_toe::store::GameStore,
    host: &str,
    opponent: &str,
    game_id: u64,
) -> GameResponse {
    let res = query(
        store,
        QueryMsg::Game {
            key: QueryKey { host: String::from(host), opponent: String::from(opponent) },
            game_id,
        },
    );
    games_of(res.unwrap()).remove(0)
}

#[test]
fn coordinate_bounds() {
    for x in 0u8..=2 {
        for y in 0u8..=2 {
            assert!(Coord { x, y }.is_valid());
        }
    }
    assert!(!Coord { x: 3, y: 0 }.is_valid());
    assert!(!Coord { x: 0, y: 3 }.is_valid());
    assert!(!Coord { x: 5, y: 5 }.is_valid());
    assert!(!Coord { x: 255, y: 1 }.is_valid());
}

#[test]
fn invite_attributes_and_ids() {
    let host_info = mock_info("host", &coins(2, "token"));
    let (mut store, init_resp) = instantiate(host_info.clone(), InstantiateMsg {});
    assert_eq!(init_resp, Response::new().add_attribute("action", "tic-tac-toe"));
    let resp = execute(
        &mut store,
        host_info.clone(),
        ExecuteMsg::Invite { coord: Coord { x: 2, y: 0 }, opponent: String::from("opponent") },
    )
    .unwrap();
    assert_eq!(
        resp,
        Response::new()
            .add_attribute("method", "invite")
            .add_attribute("x", "2")
            .add_attribute("y", "0")
            .add_attribute("game_id", "1")
            .add_attribute("opponent", "opponent")
    );
    // ids count up per invite
    let resp2 = execute(
        &mut store,
        host_info,
        ExecuteMsg::Invite { coord: Coord { x: 0, y: 0 }, opponent: String::from("friend") },
    )
    .unwrap();
    assert_eq!(resp2.attributes[3].value, "2");
    let g1 = fetch(&store, "host", "opponent", 1);
    assert_eq!(g1.game.status, Status::INVITED);
    assert_eq!(g1.game.prize, coins(2, "token"));
}

#[test]
fn invite_to_self_fails() {
    let host_info = mock_info("host", &coins(2, "token"));
    let (mut store, _) = instantiate(host_info.clone(), InstantiateMsg {});
    let res = execute(
        &mut store,
        host_info,
        ExecuteMsg::Invite { coord: Coord { x: 0, y: 0 }, opponent: String::from("host") },
    );
    assert_eq!(res.unwrap_err(), ContractError::CannotStartGame {});
}

#[test]
fn invite_with_invalid_coord_fails() {
    let host_info = mock_info("host", &coins(2, "token"));
    let (mut store, _) = instantiate(host_info.clone(), InstantiateMsg {});
    let res = execute(
        &mut store,
        host_info,
        ExecuteMsg::Invite { coord: Coord { x: 0, y: 7 }, opponent: String::from("opponent") },
    );
    assert_eq!(res.unwrap_err(), ContractError::InvalidCoord { coord: Coord { x: 0, y: 7 } });
}

#[test]
fn invite_with_denormalized_opponent_fails() {
    let host_info = mock_info("host", &coins(2, "token"));
    let (mut store, _) = instantiate(host_info.clone(), InstantiateMsg {});
    let res = execute(
        &mut store,
        host_info,
        ExecuteMsg::Invite { coord: Coord { x: 0, y: 0 }, opponent: String::from("Opponent") },
    );
    assert_eq!(
        res.unwrap_err(),
        ContractError::Std { msg: String::from("Invalid input: address not normalized") }
    );
}

#[test]
fn invite_with_overlong_opponent_fails() {
    let host_info = mock_info("host", &coins(2, "token"));
    let (mut store, _) = instantiate(host_info.clone(), InstantiateMsg {});
    let long = "a".repeat(55);
    let res = execute(
        &mut store,
        host_info,
        ExecuteMsg::Invite { coord: Coord { x: 0, y: 0 }, opponent: long },
    );
    assert_eq!(
        res.unwrap_err(),
        ContractError::Std { msg: String::from("Invalid input: human address too long") }
    );
}

#[test]
fn reject_refunds_host_and_freezes_game() {
    let host_info = mock_info("host", &coins(2, "token"));
    let opponent_info = mock_info("opponent", &coins(2, "token"));
    let (mut store, _) = instantiate(host_info.clone(), InstantiateMsg {});
    execute(
        &mut store,
        host_info,
        ExecuteMsg::Invite { coord: Coord { x: 2, y: 0 }, opponent: String::from("opponent") },
    )
    .unwrap();
    let resp = execute(
        &mut store,
        opponent_info.clone(),
        ExecuteMsg::Reject { as_host: false, opponent: String::from("host"), game_id: 1 },
    )
    .unwrap();
    assert_eq!(
        resp.messages,
        vec![BankMsg::Send { to_address: String::from("host"), amount: coins(2, "token") }]
    );
    assert_eq!(fetch(&store, "host", "opponent", 1).game.status, Status::REJECTED);

    // the rejected game cannot be accepted afterwards
    let res = execute(
        &mut store,
        opponent_info,
        ExecuteMsg::Accept { coord: Coord { x: 1, y: 1 }, host: String::from("host"), game_id: 1 },
    );
    assert_eq!(
        res.unwrap_err(),
        ContractError::InvalidGame {
            host: String::from("opponent"),
            opponent: String::from("host")
        }
    );
    assert_eq!(fetch(&store, "host", "opponent", 1).game.status, Status::REJECTED);
}

#[test]
fn reject_unknown_game_fails() {
    let host_info = mock_info("host", &coins(2, "token"));
    let (mut store, _) = instantiate(host_info.clone(), InstantiateMsg {});
    let res = execute(
        &mut store,
        host_info,
        ExecuteMsg::Reject { as_host: true, opponent: String::from("opponent"), game_id: 9 },
    );
    assert_eq!(
        res.unwrap_err(),
        ContractError::GameNotFound {
            host: String::from("host"),
            opponent: String::from("opponent")
        }
    );
}

#[test]
fn decisive_win_pays_winner_everything() {
    let host_info = mock_info("host", &coins(2, "token"));
    let opponent_info = mock_info("opponent", &coins(2, "token"));
    let (mut store, _) = instantiate(host_info.clone(), InstantiateMsg {});
    execute(
        &mut store,
        host_info.clone(),
        ExecuteMsg::Invite { coord: Coord { x: 0, y: 0 }, opponent: String::from("opponent") },
    )
    .unwrap();
    execute(
        &mut store,
        opponent_info.clone(),
        ExecuteMsg::Accept { coord: Coord { x: 1, y: 1 }, host: String::from("host"), game_id: 1 },
    )
    .unwrap();
    let host_play = |coord: Coord| ExecuteMsg::Play {
        as_host: true,
        coord,
        opponent: String::from("opponent"),
        game_id: 1,
    };
    let opponent_play = |coord: Coord| ExecuteMsg::Play {
        as_host: false,
        coord,
        opponent: String::from("host"),
        game_id: 1,
    };
    execute(&mut store, host_info.clone(), host_play(Coord { x: 0, y: 1 })).unwrap();
    execute(&mut store, opponent_info.clone(), opponent_play(Coord { x: 2, y: 2 })).unwrap();
    let resp = execute(&mut store, host_info, host_play(Coord { x: 0, y: 2 })).unwrap();
    assert_eq!(
        resp,
        Response::new()
            .add_attribute("method", "play")
            .add_attribute("x", "0")
            .add_attribute("y", "2")
            .add_attribute("status", "completed")
            .add_attribute("opponent", "opponent")
            .add_attribute("winner", "X")
            .add_message(BankMsg::Send {
                to_address: String::from("host"),
                amount: coins(4, "token")
            })
    );
    let game = fetch(&store, "host", "opponent", 1).game;
    assert_eq!(game.status, Status::COMPLETED);
    assert_eq!(game.winner, Some(PlayerSymbol::X));
    assert_eq!(game.player_round, None);
}

#[test]
fn draw_splits_prize() {
    let host_info = mock_info("host", &coins(2, "token"));
    let opponent_info = mock_info("opponent", &coins(2, "token"));
    let (mut store, _) = instantiate(host_info.clone(), InstantiateMsg {});
    // final board, by (x, y):      X O X
    //                              X O O
    //                              O X X
    execute(
        &mut store,
        host_info.clone(),
        ExecuteMsg::Invite { coord: Coord { x: 0, y: 0 }, opponent: String::from("opponent") },
    )
    .unwrap();
    execute(
        &mut store,
        opponent_info.clone(),
        ExecuteMsg::Accept { coord: Coord { x: 1, y: 0 }, host: String::from("host"), game_id: 1 },
    )
    .unwrap();
    let host_play = |coord: Coord| ExecuteMsg::Play {
        as_host: true,
        coord,
        opponent: String::from("opponent"),
        game_id: 1,
    };
    let opponent_play = |coord: Coord| ExecuteMsg::Play {
        as_host: false,
        coord,
        opponent: String::from("host"),
        game_id: 1,
    };
    execute(&mut store, host_info.clone(), host_play(Coord { x: 2, y: 0 })).unwrap();
    execute(&mut store, opponent_info.clone(), opponent_play(Coord { x: 1, y: 1 })).unwrap();
    execute(&mut store, host_info.clone(), host_play(Coord { x: 0, y: 1 })).unwrap();
    execute(&mut store, opponent_info.clone(), opponent_play(Coord { x: 2, y: 1 })).unwrap();
    execute(&mut store, host_info.clone(), host_play(Coord { x: 1, y: 2 })).unwrap();
    execute(&mut store, opponent_info.clone(), opponent_play(Coord { x: 0, y: 2 })).unwrap();
    let resp = execute(&mut store, host_info, host_play(Coord { x: 2, y: 2 })).unwrap();
    assert_eq!(
        resp.messages,
        vec![
            BankMsg::Send { to_address: String::from("host"), amount: coins(2, "token") },
            BankMsg::Send { to_address: String::from("opponent"), amount: coins(2, "token") },
        ]
    );
    let game = fetch(&store, "host", "opponent", 1).game;
    assert_eq!(game.status, Status::COMPLETED);
    assert_eq!(game.winner, None);
    assert_eq!(game.player_round, None);
    assert!(is_full(&game.board));
    assert_eq!(detect_winner(&game.board), None);
}

#[test]
fn play_out_of_turn_fails() {
    let host_info = mock_info("host", &coins(2, "token"));
    let opponent_info = mock_info("opponent", &coins(2, "token"));
    let (mut store, _) = instantiate(host_info.clone(), InstantiateMsg {});
    execute(
        &mut store,
        host_info.clone(),
        ExecuteMsg::Invite { coord: Coord { x: 0, y: 0 }, opponent: String::from("opponent") },
    )
    .unwrap();
    execute(
        &mut store,
        opponent_info,
        ExecuteMsg::Accept { coord: Coord { x: 1, y: 1 }, host: String::from("host"), game_id: 1 },
    )
    .unwrap();
    // the host moves, then tries to move again at a fresh cell
    execute(
        &mut store,
        host_info.clone(),
        ExecuteMsg::Play {
            as_host: true,
            coord: Coord { x: 0, y: 1 },
            opponent: String::from("opponent"),
            game_id: 1,
        },
    )
    .unwrap();
    let res = execute(
        &mut store,
        host_info,
        ExecuteMsg::Play {
            as_host: true,
            coord: Coord { x: 2, y: 2 },
            opponent: String::from("opponent"),
            game_id: 1,
        },
    );
    assert_eq!(
        res.unwrap_err(),
        ContractError::TurnAlreadyPlayed { second_player: String::from("opponent") }
    );
}

#[test]
fn play_on_occupied_cell_fails() {
    let host_info = mock_info("host", &coins(2, "token"));
    let opponent_info = mock_info("opponent", &coins(2, "token"));
    let (mut store, _) = instantiate(host_info.clone(), InstantiateMsg {});
    execute(
        &mut store,
        host_info.clone(),
        ExecuteMsg::Invite { coord: Coord { x: 0, y: 0 }, opponent: String::from("opponent") },
    )
    .unwrap();
    execute(
        &mut store,
        opponent_info,
        ExecuteMsg::Accept { coord: Coord { x: 1, y: 1 }, host: String::from("host"), game_id: 1 },
    )
    .unwrap();
    let res = execute(
        &mut store,
        host_info,
        ExecuteMsg::Play {
            as_host: true,
            coord: Coord { x: 1, y: 1 },
            opponent: String::from("opponent"),
            game_id: 1,
        },
    );
    assert_eq!(
        res.unwrap_err(),
        ContractError::CoordinateAlreadyPlayed { coord: Coord { x: 1, y: 1 } }
    );
}

#[test]
fn mismatched_stake_leaves_game_invited() {
    let host_info = mock_info("host", &coins(2, "token"));
    let opponent_info = mock_info("opponent", &coins(2, "other"));
    let (mut store, _) = instantiate(host_info.clone(), InstantiateMsg {});
    execute(
        &mut store,
        host_info,
        ExecuteMsg::Invite { coord: Coord { x: 2, y: 0 }, opponent: String::from("opponent") },
    )
    .unwrap();
    let res = execute(
        &mut store,
        opponent_info,
        ExecuteMsg::Accept { coord: Coord { x: 1, y: 1 }, host: String::from("host"), game_id: 1 },
    );
    assert_eq!(res.unwrap_err(), ContractError::InvalidReceivedFunds {});
    let game = fetch(&store, "host", "opponent", 1).game;
    assert_eq!(game.status, Status::INVITED);
    assert_eq!(game.prize, coins(2, "token"));
    assert_eq!(game.board[1][1], None);
}

#[test]
fn query_games_lists_and_filters() {
    let host_info = mock_info("host", &coins(2, "token"));
    let other_info = mock_info("other", &coins(4, "token"));
    let opponent_info = mock_info("opponent", &coins(2, "token"));
    let (mut store, _) = instantiate(host_info.clone(), InstantiateMsg {});
    execute(
        &mut store,
        host_info,
        ExecuteMsg::Invite { coord: Coord { x: 0, y: 0 }, opponent: String::from("opponent") },
    )
    .unwrap();
    execute(
        &mut store,
        other_info,
        ExecuteMsg::Invite { coord: Coord { x: 1, y: 1 }, opponent: String::from("opponent") },
    )
    .unwrap();
    execute(
        &mut store,
        opponent_info,
        ExecuteMsg::Accept { coord: Coord { x: 2, y: 2 }, host: String::from("host"), game_id: 1 },
    )
    .unwrap();

    let all = games_of(query(&store, QueryMsg::Games { status: None }).unwrap());
    assert_eq!(all.len(), 2);
    assert_eq!(all[0].host, "host");
    assert_eq!(all[0].game.status, Status::PLAYING);
    assert_eq!(all[1].host, "other");
    assert_eq!(all[1].game.status, Status::INVITED);

    let invited =
        games_of(query(&store, QueryMsg::Games { status: Some(Status::INVITED) }).unwrap());
    assert_eq!(invited.len(), 1);
    assert_eq!(invited[0].host, "other");
    assert_eq!(invited[0].game.prize, coins(4, "token"));

    let completed =
        games_of(query(&store, QueryMsg::Games { status: Some(Status::COMPLETED) }).unwrap());
    assert_eq!(completed.len(), 0);
}

#[test]
fn query_missing_game_returns_empty() {
    let host_info = mock_info("host", &coins(2, "token"));
    let (store, _) = instantiate(host_info, InstantiateMsg {});
    let res = query(
        &store,
        QueryMsg::Game {
            key: QueryKey { host: String::from("host"), opponent: String::from("opponent") },
            game_id: 1,
        },
    );
    assert_eq!(games_of(res.unwrap()).len(), 0);
}

#[test]
fn query_contract_version() {
    let host_info = mock_info("host", &coins(2, "token"));
    let (store, _) = instantiate(host_info, InstantiateMsg {});
    let res = query(&store, QueryMsg::GetContractVersion {}).unwrap();
    assert_eq!(
        res,
        QueryAnswer::ContractVersion(ContractVersion {
            contract: String::from("tic-tac-toe"),
            version: String::from("0.1.0"),
        })
    );
}

#[test]
fn decimal_formatting() {
    assert_eq!(u64_to_string(0), "0");
    assert_eq!(u64_to_string(7), "7");
    assert_eq!(u64_to_string(10), "10");
    assert_eq!(u64_to_string(305), "305");
    assert_eq!(u64_to_string(18446744073709551615), "18446744073709551615");
}

#[test]
fn winner_detection_on_boards() {
    let x = Some(PlayerSymbol::X);
    let o = Some(PlayerSymbol::O);
    let row = vec![vec![x, x, x], vec![o, o, None], vec![None, None, None]];
    assert_eq!(detect_winner(&row), Some(PlayerSymbol::X));
    let col = vec![vec![o, x, None], vec![o, x, None], vec![o, None, x]];
    assert_eq!(detect_winner(&col), Some(PlayerSymbol::O));
    let diag = vec![vec![x, o, None], vec![o, x, None], vec![None, None, x]];
    assert_eq!(detect_winner(&diag), Some(PlayerSymbol::X));
    let anti = vec![vec![x, x, o], vec![x, o, None], vec![o, None, None]];
    assert_eq!(detect_winner(&anti), Some(PlayerSymbol::O));
    let none = vec![vec![x, o, x], vec![x, o, o], vec![o, x, x]];
    assert_eq!(detect_winner(&none), None);
    assert!(is_full(&none));
    assert!(!is_full(&row));
}

#[test]
fn query_games_ascending_key_order() {
    let late_info = mock_info("zebra", &coins(2, "token"));
    let early_info = mock_info("aardvark", &coins(2, "token"));
    let (mut store, _) = instantiate(late_info.clone(), InstantiateMsg {});
    execute(
        &mut store,
        late_info,
        ExecuteMsg::Invite { coord: Coord { x: 0, y: 0 }, opponent: String::from("opponent") },
    )
    .unwrap();
    execute(
        &mut store,
        early_info,
        ExecuteMsg::Invite { coord: Coord { x: 1, y: 1 }, opponent: String::from("opponent") },
    )
    .unwrap();
    let all = games_of(query(&store, QueryMsg::Games { status: None }).unwrap());
    assert_eq!(all.len(), 2);
    assert_eq!(all[0].host, "aardvark");
    assert_eq!(all[1].host, "zebra");
}

#[test]
fn opponent_win_pays_opponent() {
    let host_info = mock_info("host", &coins(2, "token"));
    let opponent_info = mock_info("opponent", &coins(2, "token"));
    let (mut store, _) = instantiate(host_info.clone(), InstantiateMsg {});
    execute(
        &mut store,
        host_info.clone(),
        ExecuteMsg::Invite { coord: Coord { x: 0, y: 0 }, opponent: String::from("opponent") },
    )
    .unwrap();
    execute(
        &mut store,
        opponent_info.clone(),
        ExecuteMsg::Accept { coord: Coord { x: 1, y: 1 }, host: String::from("host"), game_id: 1 },
    )
    .unwrap();
    let host_play = |coord: Coord| ExecuteMsg::Play {
        as_host: true,
        coord,
        opponent: String::from("opponent"),
        game_id: 1,
    };
    let opponent_play = |coord: Coord| ExecuteMsg::Play {
        as_host: false,
        coord,
        opponent: String::from("host"),
        game_id: 1,
    };
    execute(&mut store, host_info.clone(), host_play(Coord { x: 2, y: 0 })).unwrap();
    execute(&mut store, opponent_info.clone(), opponent_play(Coord { x: 1, y: 0 })).unwrap();
    execute(&mut store, host_info, host_play(Coord { x: 2, y: 2 })).unwrap();
    let resp = execute(&mut store, opponent_info, opponent_play(Coord { x: 1, y: 2 })).unwrap();
    assert_eq!(
        resp.messages,
        vec![BankMsg::Send { to_address: String::from("opponent"), amount: coins(4, "token") }]
    );
    assert_eq!(resp.attributes[5].key, "winner");
    assert_eq!(resp.attributes[5].value, "O");
    let game = fetch(&store, "host", "opponent", 1).game;
    assert_eq!(game.status, Status::COMPLETED);
    assert_eq!(game.winner, Some(PlayerSymbol::O));
}

#[test]
fn host_rejects_own_invite() {
    let host_info = mock_info("host", &coins(6, "token"));
    let (mut store, _) = instantiate(host_info.clone(), InstantiateMsg {});
    execute(
        &mut store,
        host_info.clone(),
        ExecuteMsg::Invite { coord: Coord { x: 1, y: 1 }, opponent: String::from("opponent") },
    )
    .unwrap();
    let resp = execute(
        &mut store,
        host_info,
        ExecuteMsg::Reject { as_host: true, opponent: String::from("opponent"), game_id: 1 },
    )
    .unwrap();
    assert_eq!(
        resp,
        Response::new()
            .add_attribute("method", "reject")
            .add_attribute("opponent", "opponent")
            .add_message(BankMsg::Send {
                to_address: String::from("host"),
                amount: coins(6, "token")
            })
    );
    assert_eq!(fetch(&store, "host", "opponent", 1).game.status, Status::REJECTED);
}
