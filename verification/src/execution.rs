use vstd::prelude::*;

use crate::api::{is_ascii_seq, mock_addr_err, mock_addr_valid, validate_address};
use crate::digits::{dec_str, u64_to_string, u8_to_string};
use crate::errors::{ContractError, ErrorV};
use crate::msg::{attr, AttributeV, BankMsg, BankMsgV, MessageInfo, MessageInfoV, Response};
use crate::state::{
    board_full, cell, coins_eq, coins_equal, coord_valid, clone_coins, doubled_prize, empty_board,
    game_wf, halved_prize, has_line, mark, occupied, opening_board, other_symbol, play_symbol_of,
    prize_doublable, spec_already_played, spec_double_prize, spec_finish_round, spec_new_game,
    spec_play, status_label, symbol_label, Coord, Game, GameV, PlayerSymbol, Status,
};
use crate::order::{key_lt, lemma_key_lt_connex, lemma_key_lt_transitive};
use crate::store::{
    entry_key, find_index, insert_pos, lemma_find_index, lemma_insert_pos, lookup, store_wf,
    EntryV, GameStore, KeyV, StoreV,
};

verus! {

/// The attributes an accepted invitation reports.
pub open spec fn invite_attrs(coord: Coord, game_id: u64, opponent: Seq<char>) -> Seq<AttributeV> {
    seq![
        attr("method"@, "invite"@),
        attr("x"@, dec_str(coord.x as nat)),
        attr("y"@, dec_str(coord.y as nat)),
        attr("game_id"@, dec_str(game_id as nat)),
        attr("opponent"@, opponent),
    ]
}

/// What `try_invite` does: on success the counter moves up by one and the new
/// game enters at its place in the key order under (sender, opponent, new id);
/// on failure nothing changes, and for ASCII identifiers the error is pinned
/// down exactly.
pub open spec fn invite_post(
    s0: StoreV,
    s1: StoreV,
    info: MessageInfoV,
    coord: Coord,
    opponent: Seq<char>,
    r: Result<Response, ContractError>,
) -> bool {
    &&& s1.version == s0.version
    &&& match r {
        Ok(resp) => {
            &&& (is_ascii_seq(opponent) ==> mock_addr_valid(opponent))
            &&& coord_valid(coord)
            &&& opponent != info.sender
            &&& s1.games_count == s0.games_count + 1
            &&& s1.games == s0.games.insert(
                insert_pos(s0.games, (info.sender, opponent, (s0.games_count + 1) as u64)),
                (EntryV {
                    host: info.sender,
                    opponent,
                    game_id: (s0.games_count + 1) as u64,
                    game: spec_new_game(coord, info.funds),
                }),
            )
            &&& resp@.messages.len() == 0
            &&& resp@.attributes == invite_attrs(coord, (s0.games_count + 1) as u64, opponent)
        },
        Err(e) => {
            &&& s1 == s0
            &&& match e@ {
                ErrorV::Std { msg } => !(is_ascii_seq(opponent) && mock_addr_valid(opponent)) && (
                is_ascii_seq(opponent) ==> msg == mock_addr_err(opponent)),
                ErrorV::InvalidCoord { coord: c } => {
                    &&& (is_ascii_seq(opponent) ==> mock_addr_valid(opponent))
                    &&& c == coord
                    &&& !coord_valid(coord)
                },
                ErrorV::CannotStartGame => {
                    &&& (is_ascii_seq(opponent) ==> mock_addr_valid(opponent))
                    &&& coord_valid(coord)
                    &&& opponent == info.sender
                },
                _ => false,
            }
        },
    }
}

/// Creates a game: validates the opponent's identifier and the coordinate,
/// draws the next game id, and stores the new game with the caller's funds in
/// escrow and the caller's opening mark placed.
pub fn try_invite(
    store: &mut GameStore,
    info: MessageInfo,
    coord: Coord,
    opponent: String,
) -> (r: Result<Response, ContractError>)
    requires
        store_wf(old(store)@),
        old(store)@.games_count < u64::MAX,
        prize_doublable(info@.funds),
    ensures
        store_wf(final(store)@),
        invite_post(old(store)@, final(store)@, info@, coord, opponent@, r),
{
    let ghost s0 = store@;
    let ghost infov = info@;
    let opponent_address = match validate_address(opponent.as_str()) {
        Ok(a) => a,
        Err(msg) => {
            return Err(ContractError::Std { msg });
        },
    };
    if !coord.is_valid() {
        return Err(ContractError::InvalidCoord { coord });
    }
    if opponent_address == info.sender {
        return Err(ContractError::CannotStartGame {});
    }
    let game_id = store.next_game_id();
    let sender = info.sender;
    let game = Game::new(coord, info.funds);
    proof {
        lemma_new_game_wf(coord, infov.funds);
        assert forall|i: int|
            0 <= i < store@.games.len() implies entry_key(#[trigger] store@.games[i]) != (
            infov.sender,
            opponent@,
            game_id,
        ) by {
            assert(store@.games[i].game_id <= s0.games_count);
        }
    }
    store.insert_game(sender, opponent_address, game_id, game);
    let xs = u8_to_string(coord.x);
    let ys = u8_to_string(coord.y);
    let ids = u64_to_string(game_id);
    let resp = Response::new()
        .add_attribute("method", "invite")
        .add_attribute("x", xs.as_str())
        .add_attribute("y", ys.as_str())
        .add_attribute("game_id", ids.as_str())
        .add_attribute("opponent", opponent.as_str());
    proof {
        assert(resp@.attributes =~= invite_attrs(coord, game_id, opponent@));
        let e = EntryV {
            host: infov.sender,
            opponent: opponent@,
            game_id,
            game: spec_new_game(coord, infov.funds),
        };
        assert(store@.games =~= s0.games.insert(insert_pos(s0.games, entry_key(e)), e));
        lemma_wf_after_insert(s0, store@, e);
    }
    Ok(resp)
}

/// Inserting a fresh, well-formed record at its sorted place keeps the store
/// well formed.
proof fn lemma_wf_after_insert(s0: StoreV, s1: StoreV, e: EntryV)
    requires
        store_wf(s0),
        game_wf(e.game),
        s1.games == s0.games.insert(insert_pos(s0.games, entry_key(e)), e),
        s1.games_count >= s0.games_count,
        1 <= e.game_id <= s1.games_count,
        forall|i: int|
            0 <= i < s0.games.len() ==> entry_key(#[trigger] s0.games[i]) != entry_key(e),
    ensures
        store_wf(s1),
{
    let k = entry_key(e);
    let p = insert_pos(s0.games, k);
    lemma_insert_pos(s0.games, k);
    s0.games.insert_ensures(p, e);
    assert forall|a: int, b: int|
        0 <= a < b < s1.games.len() implies key_lt(
        entry_key(#[trigger] s1.games[a]),
        entry_key(#[trigger] s1.games[b]),
    ) by {
        if a < p && b == p {
            lemma_key_lt_connex(entry_key(s0.games[a]), k);
        } else if a == p && b > p {
            assert(s1.games[b] == s0.games[b - 1]);
            assert(key_lt(k, entry_key(s0.games[p])));
            if b - 1 > p {
                lemma_key_lt_transitive(k, entry_key(s0.games[p]), entry_key(s0.games[b - 1]));
            }
        } else if a < p && b > p {
            assert(s1.games[a] == s0.games[a]);
            assert(s1.games[b] == s0.games[b - 1]);
        }
    }
    assert forall|a: int, b: int|
        0 <= a < b < s1.games.len() implies entry_key(#[trigger] s1.games[a]) != entry_key(
        #[trigger] s1.games[b]) by {
        assert(key_lt(entry_key(s1.games[a]), entry_key(s1.games[b])));
        crate::order::lemma_key_lt_irreflexive(entry_key(s1.games[a]));
    }
    assert forall|a: int| 0 <= a < s1.games.len() implies game_wf((#[trigger] s1.games[a]).game)
        && 1 <= s1.games[a].game_id <= s1.games_count by {
        if a < p {
            assert(s1.games[a] == s0.games[a]);
        } else if a > p {
            assert(s1.games[a] == s0.games[a - 1]);
        }
    }
}

/// The game an invitation writes is well formed.
proof fn lemma_new_game_wf(coord: Coord, funds: Seq<crate::state::CoinV>)
    requires
        coord_valid(coord),
        prize_doublable(funds),
    ensures
        crate::state::game_wf(spec_new_game(coord, funds)),
{
    let g = spec_new_game(coord, funds);
    let b = mark(empty_board(), coord, PlayerSymbol::X);
    assert(b.len() == 3);
    assert forall|y: int| 0 <= y < 3 implies (#[trigger] b[y]).len() == 3 by {
        assert(empty_board()[y].len() == 3);
    }
    assert(crate::state::opening_board(b));
}

/// The key an action by `sender` in the given role addresses.
pub open spec fn role_key(
    sender: Seq<char>,
    as_host: bool,
    opponent: Seq<char>,
    game_id: u64,
) -> KeyV {
    if as_host {
        (sender, opponent, game_id)
    } else {
        (opponent, sender, game_id)
    }
}

/// The store holds a game under `k` whose status is `st`.
pub open spec fn found_with_status(s: Seq<EntryV>, k: KeyV, st: Status) -> bool {
    match lookup(s, k) {
        Some(g) => g.status == st,
        None => false,
    }
}

/// `g` with its lifecycle state moved to `st`.
pub open spec fn with_status(g: GameV, st: Status) -> GameV {
    GameV {
        board: g.board,
        player_round: g.player_round,
        host_symbol: g.host_symbol,
        prize: g.prize,
        status: st,
        winner: g.winner,
    }
}

/// The store with the game under `k` replaced by `g`; everything else is
/// untouched.
pub open spec fn saved_at(s0: StoreV, s1: StoreV, k: KeyV, g: GameV) -> bool {
    &&& s1.games_count == s0.games_count
    &&& s1.version == s0.version
    &&& s1.games == s0.games.update(
        find_index(s0.games, k),
        EntryV { host: k.0, opponent: k.1, game_id: k.2, game: g },
    )
}

/// What `try_reject` does: an `INVITED` game under the role's key moves to
/// `REJECTED` and the full escrow flows back to the host's side; any failure
/// leaves the store unchanged.
pub open spec fn reject_post(
    s0: StoreV,
    s1: StoreV,
    info: MessageInfoV,
    as_host: bool,
    opponent: Seq<char>,
    game_id: u64,
    r: Result<Response, ContractError>,
) -> bool {
    let k = role_key(info.sender, as_host, opponent, game_id);
    let refund_to = if as_host {
        info.sender
    } else {
        opponent
    };
    match r {
        Ok(resp) => {
            &&& (is_ascii_seq(opponent) ==> mock_addr_valid(opponent))
            &&& found_with_status(s0.games, k, Status::INVITED)
            &&& saved_at(s0, s1, k, with_status(lookup(s0.games, k).unwrap(), Status::REJECTED))
            &&& resp@.messages == seq![
                BankMsgV::Send { to_address: refund_to, amount: lookup(s0.games, k).unwrap().prize },
            ]
            &&& resp@.attributes == seq![attr("method"@, "reject"@), attr("opponent"@, opponent)]
        },
        Err(e) => {
            &&& s1 == s0
            &&& match e@ {
                ErrorV::Std { msg } => !(is_ascii_seq(opponent) && mock_addr_valid(opponent)) && (
                is_ascii_seq(opponent) ==> msg == mock_addr_err(opponent)),
                ErrorV::GameNotFound { host, opponent: o } => {
                    &&& (is_ascii_seq(opponent) ==> mock_addr_valid(opponent))
                    &&& host == info.sender
                    &&& o == opponent
                    &&& !found_with_status(s0.games, k, Status::INVITED)
                },
                _ => false,
            }
        },
    }
}

/// Declines an invitation: the game moves to `REJECTED` and the whole escrow
/// is refunded to the host, the only party who has deposited.
pub fn try_reject(
    store: &mut GameStore,
    info: MessageInfo,
    as_host: bool,
    opponent: String,
    game_id: u64,
) -> (r: Result<Response, ContractError>)
    requires
        store_wf(old(store)@),
    ensures
        store_wf(final(store)@),
        reject_post(old(store)@, final(store)@, info@, as_host, opponent@, game_id, r),
{
    let ghost s0 = store@;
    let opponent_address = match validate_address(opponent.as_str()) {
        Ok(a) => a,
        Err(msg) => {
            return Err(ContractError::Std { msg });
        },
    };
    let ghost k = role_key(info@.sender, as_host, opponent@, game_id);
    let idx_opt = if as_host {
        store.find_entry(&info.sender, &opponent_address, game_id)
    } else {
        store.find_entry(&opponent_address, &info.sender, game_id)
    };
    proof {
        lemma_find_index(s0.games, k);
    }
    let i = match idx_opt {
        Some(i) => i,
        None => {
            return Err(ContractError::GameNotFound { host: info.sender, opponent: opponent_address });
        },
    };
    if !(store.game_at(i).status == Status::INVITED) {
        return Err(ContractError::GameNotFound { host: info.sender, opponent: opponent_address });
    }
    let ghost g0 = lookup(s0.games, k).unwrap();
    let mut game = store.game_at(i).duplicate();
    game.status = Status::REJECTED;
    let prize = clone_coins(&game.prize);
    let refund_address = if as_host {
        info.sender.clone()
    } else {
        opponent_address
    };
    proof {
        assert(game@ == with_status(g0, Status::REJECTED));
        assert(game_wf(game@));
    }
    store.replace_game(i, game);
    proof {
        let e = EntryV { host: k.0, opponent: k.1, game_id: k.2, game: with_status(g0, Status::REJECTED) };
        assert(entry_key(s0.games[i as int]) == k);
        assert(store@.games =~= s0.games.update(i as int, e));
        lemma_wf_after_update(s0, store@, i as int, e);
    }
    let resp = Response::new()
        .add_attribute("method", "reject")
        .add_attribute("opponent", opponent.as_str())
        .add_message(BankMsg::Send { to_address: refund_address, amount: prize });
    proof {
        assert(resp@.messages =~= seq![
            BankMsgV::Send {
                to_address: if as_host { info@.sender } else { opponent@ },
                amount: g0.prize,
            },
        ]);
        assert(resp@.attributes =~= seq![attr("method"@, "reject"@), attr("opponent"@, opponent@)]);
    }
    Ok(resp)
}

/// Replacing one game by a well-formed one, key kept, preserves the store's
/// well-formedness.
proof fn lemma_wf_after_update(s0: StoreV, s1: StoreV, i: int, e: EntryV)
    requires
        store_wf(s0),
        0 <= i < s0.games.len(),
        entry_key(e) == entry_key(s0.games[i]),
        e.game_id == s0.games[i].game_id,
        game_wf(e.game),
        s1.games == s0.games.update(i, e),
        s1.games_count == s0.games_count,
    ensures
        store_wf(s1),
{
    assert forall|a: int, b: int|
        0 <= a < b < s1.games.len() implies entry_key(#[trigger] s1.games[a]) != entry_key(
        #[trigger] s1.games[b]) && key_lt(
        entry_key(#[trigger] s1.games[a]),
        entry_key(#[trigger] s1.games[b]),
    ) by {
        assert(entry_key(s1.games[a]) == entry_key(s0.games[a]));
        assert(entry_key(s1.games[b]) == entry_key(s0.games[b]));
    }
    assert forall|a: int| 0 <= a < s1.games.len() implies game_wf((#[trigger] s1.games[a]).game) by {
        if a != i {
            assert(s1.games[a] == s0.games[a]);
        }
    }
    assert forall|a: int|
        0 <= a < s1.games.len() implies 1 <= (#[trigger] s1.games[a]).game_id
        <= s1.games_count by {
        if a != i {
            assert(s1.games[a] == s0.games[a]);
        }
    }
}

/// The game acceptance produces: escrow doubled, the opponent's mark placed,
/// the round handed to the host, play begun.
pub open spec fn spec_accept_game(g: GameV, coord: Coord) -> GameV {
    with_status(spec_finish_round(spec_play(spec_double_prize(g), coord)), Status::PLAYING)
}

/// The attributes a successful acceptance reports.
pub open spec fn accept_attrs(coord: Coord, host: Seq<char>) -> Seq<AttributeV> {
    seq![
        attr("method"@, "accept"@),
        attr("x"@, dec_str(coord.x as nat)),
        attr("y"@, dec_str(coord.y as nat)),
        attr("opponent"@, host),
    ]
}

/// What `try_accept` does: an `INVITED` game under (host, sender, id), an
/// unoccupied valid coordinate and exactly matching funds move the game to
/// `PLAYING` with the escrow doubled; any failure leaves the store unchanged,
/// and for ASCII identifiers the error is pinned down exactly.
pub open spec fn accept_post(
    s0: StoreV,
    s1: StoreV,
    info: MessageInfoV,
    coord: Coord,
    host: Seq<char>,
    game_id: u64,
    r: Result<Response, ContractError>,
) -> bool {
    let k = (host, info.sender, game_id);
    let g0 = lookup(s0.games, k).unwrap();
    match r {
        Ok(resp) => {
            &&& (is_ascii_seq(host) ==> mock_addr_valid(host))
            &&& coord_valid(coord)
            &&& found_with_status(s0.games, k, Status::INVITED)
            &&& !occupied(g0.board, coord)
            &&& coins_equal(g0.prize, info.funds)
            &&& saved_at(s0, s1, k, spec_accept_game(g0, coord))
            &&& resp@.messages.len() == 0
            &&& resp@.attributes == accept_attrs(coord, host)
        },
        Err(e) => {
            &&& s1 == s0
            &&& match e@ {
                ErrorV::Std { msg } => !(is_ascii_seq(host) && mock_addr_valid(host)) && (
                is_ascii_seq(host) ==> msg == mock_addr_err(host)),
                ErrorV::InvalidCoord { coord: c } => {
                    &&& (is_ascii_seq(host) ==> mock_addr_valid(host))
                    &&& c == coord
                    &&& !coord_valid(coord)
                },
                ErrorV::InvalidGame { host: h, opponent: o } => {
                    &&& (is_ascii_seq(host) ==> mock_addr_valid(host))
                    &&& coord_valid(coord)
                    &&& h == info.sender
                    &&& o == host
                    &&& !found_with_status(s0.games, k, Status::INVITED)
                },
                ErrorV::CoordinateAlreadyPlayed { coord: c } => {
                    &&& (is_ascii_seq(host) ==> mock_addr_valid(host))
                    &&& coord_valid(coord)
                    &&& found_with_status(s0.games, k, Status::INVITED)
                    &&& c == coord
                    &&& occupied(g0.board, coord)
                },
                ErrorV::InvalidReceivedFunds => {
                    &&& (is_ascii_seq(host) ==> mock_addr_valid(host))
                    &&& coord_valid(coord)
                    &&& found_with_status(s0.games, k, Status::INVITED)
                    &&& !occupied(g0.board, coord)
                    &&& !coins_equal(g0.prize, info.funds)
                },
                _ => false,
            }
        },
    }
}

/// Joins a game: requires the exact escrow to be matched, doubles it, places
/// the opponent's mark and hands the round to the host.
pub fn try_accept(
    store: &mut GameStore,
    info: MessageInfo,
    coord: Coord,
    host: String,
    game_id: u64,
) -> (r: Result<Response, ContractError>)
    requires
        store_wf(old(store)@),
    ensures
        store_wf(final(store)@),
        accept_post(old(store)@, final(store)@, info@, coord, host@, game_id, r),
{
    let ghost s0 = store@;
    let host_address = match validate_address(host.as_str()) {
        Ok(a) => a,
        Err(msg) => {
            return Err(ContractError::Std { msg });
        },
    };
    if !coord.is_valid() {
        return Err(ContractError::InvalidCoord { coord });
    }
    let ghost k: KeyV = (host@, info@.sender, game_id);
    let idx_opt = store.find_entry(&host_address, &info.sender, game_id);
    proof {
        lemma_find_index(s0.games, k);
    }
    let i = match idx_opt {
        Some(i) => i,
        None => {
            return Err(ContractError::InvalidGame { host: info.sender, opponent: host_address });
        },
    };
    if !(store.game_at(i).status == Status::INVITED) {
        return Err(ContractError::InvalidGame { host: info.sender, opponent: host_address });
    }
    let ghost g0 = lookup(s0.games, k).unwrap();
    proof {
        assert(game_wf(g0));
    }
    if store.game_at(i).already_played_on(coord) {
        return Err(ContractError::CoordinateAlreadyPlayed { coord });
    }
    if !coins_eq(&store.game_at(i).prize, &info.funds) {
        return Err(ContractError::InvalidReceivedFunds {});
    }
    let mut game = store.game_at(i).duplicate().double_prize().play(coord).finish_round();
    game.status = Status::PLAYING;
    proof {
        assert(game@ == spec_accept_game(g0, coord));
        lemma_accept_wf(g0, coord);
    }
    store.replace_game(i, game);
    proof {
        let e = EntryV { host: k.0, opponent: k.1, game_id: k.2, game: spec_accept_game(g0, coord) };
        assert(entry_key(s0.games[i as int]) == k);
        assert(store@.games =~= s0.games.update(i as int, e));
        lemma_wf_after_update(s0, store@, i as int, e);
    }
    let xs = u8_to_string(coord.x);
    let ys = u8_to_string(coord.y);
    let resp = Response::new()
        .add_attribute("method", "accept")
        .add_attribute("x", xs.as_str())
        .add_attribute("y", ys.as_str())
        .add_attribute("opponent", host_address.as_str());
    proof {
        assert(resp@.attributes =~= accept_attrs(coord, host@));
    }
    Ok(resp)
}

/// Acceptance keeps the game well formed: with only two marks on the board no
/// line exists, and the doubled escrow is even.
proof fn lemma_accept_wf(g: GameV, coord: Coord)
    requires
        game_wf(g),
        g.status == Status::INVITED,
        coord_valid(coord),
        !occupied(g.board, coord),
    ensures
        game_wf(spec_accept_game(g, coord)),
{
    let c0 = choose|c: Coord| coord_valid(c) && g.board == mark(empty_board(), c, PlayerSymbol::X);
    let g1 = spec_accept_game(g, coord);
    let b1 = g1.board;
    assert(b1 == mark(g.board, coord, PlayerSymbol::O));
    assert(b1.len() == 3);
    assert forall|y: int| 0 <= y < 3 implies (#[trigger] b1[y]).len() == 3 by {
        assert(empty_board()[y].len() == 3);
        assert(g.board[y].len() == 3);
    }
    assert(cell(g.board, coord) is None);
    assert(!has_line(b1, PlayerSymbol::X));
    assert(!has_line(b1, PlayerSymbol::O));
    assert forall|j: int| 0 <= j < g1.prize.len() implies 0 <= (#[trigger] g1.prize[j]).amount
        && g1.prize[j].amount % 2 == 0 && g1.prize[j].amount <= u128::MAX as int by {
        assert(g1.prize[j] == doubled_prize(g.prize)[j]);
        assert(g.prize[j].amount * 2 <= u128::MAX as int);
    }
}

/// The game one move produces: the mark placed; then completion with a winner,
/// completion as a draw on a full board, or the round handed over.
pub open spec fn spec_play_result(g: GameV, coord: Coord) -> GameV {
    let gp = spec_play(g, coord);
    let s = play_symbol_of(g);
    if has_line(gp.board, s) {
        GameV {
            board: gp.board,
            player_round: None,
            host_symbol: gp.host_symbol,
            prize: gp.prize,
            status: Status::COMPLETED,
            winner: Some(s),
        }
    } else if board_full(gp.board) {
        GameV {
            board: gp.board,
            player_round: None,
            host_symbol: gp.host_symbol,
            prize: gp.prize,
            status: Status::COMPLETED,
            winner: None,
        }
    } else {
        spec_finish_round(gp)
    }
}

/// The value transfers one move triggers: the whole escrow to the winner, one
/// half to each party on a draw, nothing while play goes on.
pub open spec fn play_msgs(
    g: GameV,
    coord: Coord,
    sender: Seq<char>,
    opponent: Seq<char>,
) -> Seq<BankMsgV> {
    let gp = spec_play(g, coord);
    let s = play_symbol_of(g);
    if has_line(gp.board, s) {
        seq![BankMsgV::Send { to_address: sender, amount: g.prize }]
    } else if board_full(gp.board) {
        seq![
            BankMsgV::Send { to_address: sender, amount: halved_prize(g.prize) },
            BankMsgV::Send { to_address: opponent, amount: halved_prize(g.prize) },
        ]
    } else {
        Seq::empty()
    }
}

/// The attributes a successful move reports; a decisive win names the winner.
pub open spec fn play_attrs(coord: Coord, res: GameV, opponent: Seq<char>) -> Seq<AttributeV> {
    let base = seq![
        attr("method"@, "play"@),
        attr("x"@, dec_str(coord.x as nat)),
        attr("y"@, dec_str(coord.y as nat)),
        attr("status"@, status_label(res.status)),
        attr("opponent"@, opponent),
    ];
    match res.winner {
        Some(s) => base.push(attr("winner"@, symbol_label(s))),
        None => base,
    }
}

/// What `try_play` does: a `PLAYING` game under the role's key, a valid
/// unoccupied coordinate and the caller's own turn advance the game by one
/// move, paying the escrow out on completion; any failure leaves the store
/// unchanged, and for ASCII identifiers the error is pinned down exactly.
pub open spec fn play_post(
    s0: StoreV,
    s1: StoreV,
    info: MessageInfoV,
    as_host: bool,
    coord: Coord,
    opponent: Seq<char>,
    game_id: u64,
    r: Result<Response, ContractError>,
) -> bool {
    let k = role_key(info.sender, as_host, opponent, game_id);
    let g0 = lookup(s0.games, k).unwrap();
    match r {
        Ok(resp) => {
            &&& (is_ascii_seq(opponent) ==> mock_addr_valid(opponent))
            &&& coord_valid(coord)
            &&& found_with_status(s0.games, k, Status::PLAYING)
            &&& !occupied(g0.board, coord)
            &&& !spec_already_played(g0, as_host)
            &&& saved_at(s0, s1, k, spec_play_result(g0, coord))
            &&& resp@.messages == play_msgs(g0, coord, info.sender, opponent)
            &&& resp@.attributes == play_attrs(coord, spec_play_result(g0, coord), opponent)
        },
        Err(e) => {
            &&& s1 == s0
            &&& match e@ {
                ErrorV::Std { msg } => !(is_ascii_seq(opponent) && mock_addr_valid(opponent)) && (
                is_ascii_seq(opponent) ==> msg == mock_addr_err(opponent)),
                ErrorV::InvalidCoord { coord: c } => {
                    &&& (is_ascii_seq(opponent) ==> mock_addr_valid(opponent))
                    &&& c == coord
                    &&& !coord_valid(coord)
                },
                ErrorV::InvalidGame { host: h, opponent: o } => {
                    &&& (is_ascii_seq(opponent) ==> mock_addr_valid(opponent))
                    &&& coord_valid(coord)
                    &&& h == info.sender
                    &&& o == opponent
                    &&& !found_with_status(s0.games, k, Status::PLAYING)
                },
                ErrorV::CoordinateAlreadyPlayed { coord: c } => {
                    &&& (is_ascii_seq(opponent) ==> mock_addr_valid(opponent))
                    &&& coord_valid(coord)
                    &&& found_with_status(s0.games, k, Status::PLAYING)
                    &&& c == coord
                    &&& occupied(g0.board, coord)
                },
                ErrorV::TurnAlreadyPlayed { second_player } => {
                    &&& (is_ascii_seq(opponent) ==> mock_addr_valid(opponent))
                    &&& coord_valid(coord)
                    &&& found_with_status(s0.games, k, Status::PLAYING)
                    &&& !occupied(g0.board, coord)
                    &&& second_player == opponent
                    &&& spec_already_played(g0, as_host)
                },
                _ => false,
            }
        },
    }
}

/// Makes one move: places the caller's mark, completes the game on a win or a
/// full board and pays the escrow out, or hands the round to the other side.
pub fn try_play(
    store: &mut GameStore,
    info: MessageInfo,
    as_host: bool,
    coord: Coord,
    opponent: String,
    game_id: u64,
) -> (r: Result<Response, ContractError>)
    requires
        store_wf(old(store)@),
    ensures
        store_wf(final(store)@),
        play_post(old(store)@, final(store)@, info@, as_host, coord, opponent@, game_id, r),
{
    let ghost s0 = store@;
    let opponent_address = match validate_address(opponent.as_str()) {
        Ok(a) => a,
        Err(msg) => {
            return Err(ContractError::Std { msg });
        },
    };
    if !coord.is_valid() {
        return Err(ContractError::InvalidCoord { coord });
    }
    let ghost k = role_key(info@.sender, as_host, opponent@, game_id);
    let idx_opt = if as_host {
        store.find_entry(&info.sender, &opponent_address, game_id)
    } else {
        store.find_entry(&opponent_address, &info.sender, game_id)
    };
    proof {
        lemma_find_index(s0.games, k);
    }
    let i = match idx_opt {
        Some(i) => i,
        None => {
            return Err(ContractError::InvalidGame { host: info.sender, opponent: opponent_address });
        },
    };
    if !(store.game_at(i).status == Status::PLAYING) {
        return Err(ContractError::InvalidGame { host: info.sender, opponent: opponent_address });
    }
    let ghost g0 = lookup(s0.games, k).unwrap();
    proof {
        assert(game_wf(g0));
    }
    if store.game_at(i).already_played_on(coord) {
        return Err(ContractError::CoordinateAlreadyPlayed { coord });
    }
    if store.game_at(i).already_played(as_host) {
        return Err(ContractError::TurnAlreadyPlayed { second_player: opponent });
    }
    let mut game = store.game_at(i).duplicate().play(coord);
    let mut payout: Option<Vec<BankMsg>> = None;
    if game.is_current_player_winner() {
        game.status = Status::COMPLETED;
        game.winner = Some(game.player_round.unwrap());
        game.player_round = None;
        let mut msgs: Vec<BankMsg> = Vec::new();
        msgs.push(
            BankMsg::Send { to_address: info.sender.clone(), amount: clone_coins(&game.prize) },
        );
        payout = Some(msgs);
    } else if game.is_full_board() {
        game.status = Status::COMPLETED;
        game.player_round = None;
        let half = game.get_half_prize();
        let mut msgs: Vec<BankMsg> = Vec::new();
        msgs.push(BankMsg::Send { to_address: info.sender.clone(), amount: clone_coins(&half) });
        msgs.push(BankMsg::Send { to_address: opponent.clone(), amount: half });
        payout = Some(msgs);
    } else {
        game = game.finish_round();
    }
    proof {
        assert(game@ == spec_play_result(g0, coord));
        lemma_play_wf(g0, coord);
    }
    let status_str = game.status.label();
    let ghost res = spec_play_result(g0, coord);
    let winner_str: Option<String> = match &game.winner {
        Some(s) => Some(s.label()),
        None => None,
    };
    store.replace_game(i, game);
    proof {
        let e = EntryV { host: k.0, opponent: k.1, game_id: k.2, game: res };
        assert(entry_key(s0.games[i as int]) == k);
        assert(store@.games =~= s0.games.update(i as int, e));
        lemma_wf_after_update(s0, store@, i as int, e);
    }
    let xs = u8_to_string(coord.x);
    let ys = u8_to_string(coord.y);
    let mut resp = Response::new()
        .add_attribute("method", "play")
        .add_attribute("x", xs.as_str())
        .add_attribute("y", ys.as_str())
        .add_attribute("status", status_str.as_str())
        .add_attribute("opponent", opponent.as_str());
    if let Some(w) = winner_str {
        resp = resp.add_attribute("winner", w.as_str());
    }
    let resp = match payout {
        Some(msgs) => resp.add_messages(msgs),
        None => resp,
    };
    proof {
        assert(resp@.attributes =~= play_attrs(coord, res, opponent@));
        assert(resp@.messages =~= play_msgs(g0, coord, info@.sender, opponent@));
    }
    Ok(resp)
}

/// One move keeps the game well formed: a win records the line just made, a
/// draw leaves no line at all, and marking with one symbol never creates a
/// line of the other.
proof fn lemma_play_wf(g: GameV, coord: Coord)
    requires
        game_wf(g),
        g.status == Status::PLAYING,
        coord_valid(coord),
        !occupied(g.board, coord),
    ensures
        game_wf(spec_play_result(g, coord)),
{
    let s = play_symbol_of(g);
    let b1 = mark(g.board, coord, s);
    assert(b1.len() == 3);
    assert forall|y: int| 0 <= y < 3 implies (#[trigger] b1[y]).len() == 3 by {
        assert(g.board[y].len() == 3);
    }
    assert(!has_line(b1, other_symbol(s)));
}

/// What `execute` demands of its caller, by action: only an invitation needs
/// room in the counter and a deposit whose amounts can double.
pub open spec fn execute_requires(
    s: StoreV,
    info: MessageInfoV,
    msg: crate::msg::ExecuteMsg,
) -> bool {
    match msg {
        crate::msg::ExecuteMsg::Invite { coord, opponent } => s.games_count < u64::MAX
            && prize_doublable(info.funds),
        _ => true,
    }
}

} // verus!
