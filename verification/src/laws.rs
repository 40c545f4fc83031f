use vstd::prelude::*;

use crate::api::{is_ascii_seq, mock_addr_valid};
use crate::contract::execute_post;
use crate::errors::{ContractError, ErrorV};
use crate::execution::{accept_post, found_with_status, play_post, role_key, spec_play_result};
use crate::msg::{BankMsgV, ExecuteMsg, MessageInfoV, Response};
use crate::state::{
    coord_valid, occupied, other_symbol, role_symbol, spec_already_played, status_step_ok,
    status_terminal, CoinV, Coord, GameV, Status,
};
use crate::store::{
    entry_key, find_index, insert_pos, lemma_find_index, lemma_insert_pos, lemma_lookup_insert,
    lemma_lookup_update, lookup, store_wf, EntryV, KeyV, StoreV,
};

verus! {

pub open spec fn send_amount(m: BankMsgV) -> Seq<CoinV> {
    match m {
        BankMsgV::Send { amount, .. } => amount,
    }
}

/// The total paid at position `i` across a batch of value transfers.
pub open spec fn paid_at(msgs: Seq<BankMsgV>, i: int) -> int
    decreases msgs.len(),
{
    if msgs.len() == 0 {
        0
    } else {
        paid_at(msgs.drop_last(), i) + send_amount(msgs.last())[i].amount
    }
}

/// The batch pays out exactly `prize`: every instruction carries the same
/// denominations in the same order, and per position the amounts add up to
/// the escrowed amount.
pub open spec fn payout_conserves(msgs: Seq<BankMsgV>, prize: Seq<CoinV>) -> bool {
    &&& msgs.len() > 0
    &&& forall|m: int|
        0 <= m < msgs.len() ==> send_amount(#[trigger] msgs[m]).len() == prize.len()
    &&& forall|m: int, i: int|
        0 <= m < msgs.len() && 0 <= i < prize.len() ==> #[trigger] send_amount(msgs[m])[i].denom
            == prize[i].denom
    &&& forall|i: int| 0 <= i < prize.len() ==> paid_at(msgs, i) == prize[i].amount
}

/// Escrow conservation, one action at a time: an action that terminates a
/// game pays out exactly the escrow held at that moment — the whole of it on
/// a rejection or a decisive win, two exact halves on a draw — and every
/// other action pays nothing.
pub proof fn lemma_escrow_conservation(
    s0: StoreV,
    s1: StoreV,
    info: MessageInfoV,
    msg: ExecuteMsg,
    r: Result<Response, ContractError>,
)
    requires
        store_wf(s0),
        execute_post(s0, s1, info, msg, r),
    ensures
        match (msg, r) {
            (ExecuteMsg::Reject { as_host, opponent, game_id }, Ok(resp)) => payout_conserves(
                resp@.messages,
                lookup(s0.games, role_key(info.sender, as_host, opponent@, game_id)).unwrap().prize,
            ),
            (ExecuteMsg::Play { as_host, coord, opponent, game_id }, Ok(resp)) => {
                let g0 = lookup(
                    s0.games,
                    role_key(info.sender, as_host, opponent@, game_id),
                ).unwrap();
                if spec_play_result(g0, coord).status == Status::COMPLETED {
                    payout_conserves(resp@.messages, g0.prize)
                } else {
                    resp@.messages.len() == 0
                }
            },
            (_, Ok(resp)) => resp@.messages.len() == 0,
            (_, Err(_)) => true,
        },
{
    match (msg, r) {
        (ExecuteMsg::Reject { as_host, opponent, game_id }, Ok(resp)) => {
            let k = role_key(info.sender, as_host, opponent@, game_id);
            let prize = lookup(s0.games, k).unwrap().prize;
            let refund_to = if as_host {
                info.sender
            } else {
                opponent@
            };
            let msgs = resp@.messages;
            assert(msgs == seq![BankMsgV::Send { to_address: refund_to, amount: prize }]);
            assert(msgs.len() == 1);
            assert(msgs[0] == BankMsgV::Send { to_address: refund_to, amount: prize });
            assert(send_amount(msgs[0]) == prize);
            assert forall|i: int| 0 <= i < prize.len() implies paid_at(msgs, i)
                == prize[i].amount by {
                assert(msgs.last() == msgs[0]);
                assert(msgs.drop_last().len() == 0);
                assert(paid_at(msgs.drop_last(), i) == 0);
                assert(paid_at(msgs, i) == paid_at(msgs.drop_last(), i) + send_amount(
                    msgs.last(),
                )[i].amount);
            }
        },
        (ExecuteMsg::Play { as_host, coord, opponent, game_id }, Ok(resp)) => {
            let k = role_key(info.sender, as_host, opponent@, game_id);
            let g0 = lookup(s0.games, k).unwrap();
            proof_play_conserves(s0, k, g0, coord, resp, info.sender, opponent@);
        },
        _ => {},
    }
}

proof fn proof_play_conserves(
    s0: StoreV,
    k: KeyV,
    g0: GameV,
    coord: Coord,
    resp: Response,
    sender: Seq<char>,
    opponent: Seq<char>,
)
    requires
        store_wf(s0),
        found_with_status(s0.games, k, Status::PLAYING),
        lookup(s0.games, k) == Some(g0),
        resp@.messages == crate::execution::play_msgs(g0, coord, sender, opponent),
    ensures
        spec_play_result(g0, coord).status == Status::COMPLETED ==> payout_conserves(
            resp@.messages,
            g0.prize,
        ),
        spec_play_result(g0, coord).status != Status::COMPLETED ==> resp@.messages.len() == 0,
{
    let msgs = resp@.messages;
    let gp = crate::state::spec_play(g0, coord);
    let s = crate::state::play_symbol_of(g0);
    lemma_find_index(s0.games, k);
    assert(crate::state::game_wf(g0));
    if crate::state::has_line(gp.board, s) {
        assert(msgs == seq![BankMsgV::Send { to_address: sender, amount: g0.prize }]);
        assert(msgs.len() == 1);
        assert(msgs[0] == BankMsgV::Send { to_address: sender, amount: g0.prize });
        assert forall|i: int| 0 <= i < g0.prize.len() implies paid_at(msgs, i)
            == g0.prize[i].amount by {
            assert(msgs.last() == msgs[0]);
            assert(msgs.drop_last().len() == 0);
            assert(paid_at(msgs.drop_last(), i) == 0);
            assert(paid_at(msgs, i) == paid_at(msgs.drop_last(), i) + send_amount(
                msgs.last(),
            )[i].amount);
        }
    } else if crate::state::board_full(gp.board) {
        let half = crate::state::halved_prize(g0.prize);
        assert(msgs == seq![
            BankMsgV::Send { to_address: sender, amount: half },
            BankMsgV::Send { to_address: opponent, amount: half },
        ]);
        assert(msgs.len() == 2);
        assert(msgs[0] == BankMsgV::Send { to_address: sender, amount: half });
        assert(msgs[1] == BankMsgV::Send { to_address: opponent, amount: half });
        assert forall|i: int| 0 <= i < g0.prize.len() implies paid_at(msgs, i)
            == g0.prize[i].amount by {
            let m1 = msgs.drop_last();
            assert(m1.len() == 1);
            assert(m1.last() == msgs[0]);
            assert(m1.drop_last().len() == 0);
            assert(paid_at(m1.drop_last(), i) == 0);
            assert(paid_at(m1, i) == paid_at(m1.drop_last(), i) + send_amount(m1.last())[i].amount);
            assert(msgs.last() == msgs[1]);
            assert(paid_at(msgs, i) == paid_at(m1, i) + send_amount(msgs.last())[i].amount);
            assert(half[i].amount == g0.prize[i].amount / 2);
            assert(g0.prize[i].amount % 2 == 0);
        }
        assert forall|m: int, i: int|
            0 <= m < msgs.len() && 0 <= i < g0.prize.len() implies #[trigger] send_amount(
            msgs[m])[i].denom == g0.prize[i].denom by {
            assert(half[i].denom == g0.prize[i].denom);
        }
    }
}

/// A terminated game is frozen: no action ever changes the record under its
/// key again.
pub proof fn lemma_terminal_frozen(
    s0: StoreV,
    s1: StoreV,
    info: MessageInfoV,
    msg: ExecuteMsg,
    r: Result<Response, ContractError>,
    k: KeyV,
    g: GameV,
)
    requires
        store_wf(s0),
        execute_post(s0, s1, info, msg, r),
        lookup(s0.games, k) == Some(g),
        status_terminal(g.status),
    ensures
        lookup(s1.games, k) == Some(g),
{
    lemma_any_key_monotonic(s0, s1, info, msg, r, k);
    if lookup(s1.games, k) != Some(g) {
        let g1 = lookup(s1.games, k).unwrap();
        assert(status_step_ok(g.status, g1.status));
        assert(g1.status == g.status);
        assert(false);
    }
}

/// Status moves forward only: under any action, the game at any key keeps its
/// status or advances it along `INVITED -> {REJECTED, PLAYING} -> COMPLETED`;
/// in particular nothing ever leaves `REJECTED` or `COMPLETED`, and a
/// terminal game's whole record stays as it is.
pub proof fn lemma_any_key_monotonic(
    s0: StoreV,
    s1: StoreV,
    info: MessageInfoV,
    msg: ExecuteMsg,
    r: Result<Response, ContractError>,
    k: KeyV,
)
    requires
        store_wf(s0),
        execute_post(s0, s1, info, msg, r),
        lookup(s0.games, k) is Some,
    ensures
        lookup(s1.games, k) is Some,
        status_step_ok(
            lookup(s0.games, k).unwrap().status,
            lookup(s1.games, k).unwrap().status,
        ),
        lookup(s0.games, k).unwrap().status != lookup(s1.games, k).unwrap().status ==> !status_terminal(
            lookup(s0.games, k).unwrap().status,
        ),
        status_terminal(lookup(s0.games, k).unwrap().status) ==> lookup(s1.games, k) == lookup(
            s0.games,
            k,
        ),
{
    lemma_find_index(s0.games, k);
    let g = lookup(s0.games, k).unwrap();
    let fi = find_index(s0.games, k);
    match (msg, r) {
        (ExecuteMsg::Invite { coord, opponent }, Ok(resp)) => {
            let e = EntryV {
                host: info.sender,
                opponent: opponent@,
                game_id: (s0.games_count + 1) as u64,
                game: crate::state::spec_new_game(coord, info.funds),
            };
            assert(s0.games[fi].game_id <= s0.games_count);
            assert(entry_key(e) != k);
            lemma_insert_pos(s0.games, entry_key(e));
            lemma_lookup_insert(s0.games, insert_pos(s0.games, entry_key(e)), e, k);
        },
        (ExecuteMsg::Reject { as_host, opponent, game_id }, Ok(resp)) => {
            let k2 = role_key(info.sender, as_host, opponent@, game_id);
            let g0 = lookup(s0.games, k2).unwrap();
            let gw = crate::execution::with_status(g0, Status::REJECTED);
            lemma_find_index(s0.games, k2);
            assert(s1.games == s0.games.update(
                find_index(s0.games, k2),
                (EntryV { host: k2.0, opponent: k2.1, game_id: k2.2, game: gw }),
            ) && status_step_ok(g0.status, gw.status) && !status_terminal(g0.status));
            proof_saved_monotonic(s0, s1, k2, k);
        },
        (ExecuteMsg::Accept { coord, host, game_id }, Ok(resp)) => {
            let k2 = (host@, info.sender, game_id);
            let g0 = lookup(s0.games, k2).unwrap();
            let gw = crate::execution::spec_accept_game(g0, coord);
            lemma_find_index(s0.games, k2);
            assert(s1.games == s0.games.update(
                find_index(s0.games, k2),
                (EntryV { host: k2.0, opponent: k2.1, game_id: k2.2, game: gw }),
            ) && status_step_ok(g0.status, gw.status) && !status_terminal(g0.status));
            proof_saved_monotonic(s0, s1, k2, k);
        },
        (ExecuteMsg::Play { as_host, coord, opponent, game_id }, Ok(resp)) => {
            let k2 = role_key(info.sender, as_host, opponent@, game_id);
            let g0 = lookup(s0.games, k2).unwrap();
            let gw = spec_play_result(g0, coord);
            lemma_find_index(s0.games, k2);
            assert(s1.games == s0.games.update(
                find_index(s0.games, k2),
                (EntryV { host: k2.0, opponent: k2.1, game_id: k2.2, game: gw }),
            ) && status_step_ok(g0.status, gw.status) && !status_terminal(g0.status));
            proof_saved_monotonic(s0, s1, k2, k);
        },
        _ => {},
    }
}

/// The monotonicity of one saved transition, seen from any key.
proof fn proof_saved_monotonic(s0: StoreV, s1: StoreV, k2: KeyV, k: KeyV)
    requires
        store_wf(s0),
        lookup(s0.games, k) is Some,
        find_index(s0.games, k2) < s0.games.len(),
        exists|g1: GameV|
            s1.games == s0.games.update(
                find_index(s0.games, k2),
                (EntryV { host: k2.0, opponent: k2.1, game_id: k2.2, game: g1 }),
            ) && status_step_ok(lookup(s0.games, k2).unwrap().status, g1.status)
            && !status_terminal(lookup(s0.games, k2).unwrap().status),
    ensures
        lookup(s1.games, k) is Some,
        status_step_ok(
            lookup(s0.games, k).unwrap().status,
            lookup(s1.games, k).unwrap().status,
        ),
        lookup(s0.games, k).unwrap().status != lookup(s1.games, k).unwrap().status
            ==> !status_terminal(lookup(s0.games, k).unwrap().status),
        status_terminal(lookup(s0.games, k).unwrap().status) ==> lookup(s1.games, k) == lookup(
            s0.games,
            k,
        ),
{
    let g1 = choose|g1: GameV|
        s1.games == s0.games.update(
            find_index(s0.games, k2),
            (EntryV { host: k2.0, opponent: k2.1, game_id: k2.2, game: g1 }),
        ) && status_step_ok(lookup(s0.games, k2).unwrap().status, g1.status) && !status_terminal(
            lookup(s0.games, k2).unwrap().status,
        );
    let fi2 = find_index(s0.games, k2);
    let e = EntryV { host: k2.0, opponent: k2.1, game_id: k2.2, game: g1 };
    lemma_find_index(s0.games, k2);
    lemma_find_index(s0.games, k);
    assert(entry_key(s0.games[fi2]) == k2);
    lemma_lookup_update(s0.games, fi2, e, k);
}

/// A terminated game takes no further action: rejecting, accepting or playing
/// under its key fails and leaves the store exactly as it was.
pub proof fn lemma_terminal_actions_fail(
    s0: StoreV,
    s1: StoreV,
    info: MessageInfoV,
    msg: ExecuteMsg,
    r: Result<Response, ContractError>,
    g: GameV,
)
    requires
        store_wf(s0),
        execute_post(s0, s1, info, msg, r),
        status_terminal(g.status),
        match msg {
            ExecuteMsg::Reject { as_host, opponent, game_id } => lookup(
                s0.games,
                role_key(info.sender, as_host, opponent@, game_id),
            ) == Some(g),
            ExecuteMsg::Accept { coord, host, game_id } => lookup(
                s0.games,
                (host@, info.sender, game_id),
            ) == Some(g),
            ExecuteMsg::Play { as_host, coord, opponent, game_id } => lookup(
                s0.games,
                role_key(info.sender, as_host, opponent@, game_id),
            ) == Some(g),
            ExecuteMsg::Invite { .. } => false,
        },
    ensures
        r is Err,
        s1 == s0,
{
}

/// A marked cell is never marked again: acceptance at an occupied coordinate
/// of the addressed `INVITED` game fails with `CoordinateAlreadyPlayed`,
/// whoever calls.
pub proof fn lemma_occupied_cell_rejected_accept(
    s0: StoreV,
    s1: StoreV,
    info: MessageInfoV,
    coord: Coord,
    host: Seq<char>,
    game_id: u64,
    r: Result<Response, ContractError>,
)
    requires
        store_wf(s0),
        accept_post(s0, s1, info, coord, host, game_id, r),
        is_ascii_seq(host),
        mock_addr_valid(host),
        coord_valid(coord),
        found_with_status(s0.games, (host, info.sender, game_id), Status::INVITED),
        occupied(lookup(s0.games, (host, info.sender, game_id)).unwrap().board, coord),
    ensures
        r matches Err(e) && e@ == (ErrorV::CoordinateAlreadyPlayed { coord }),
{
}

/// A marked cell is never marked again: a move at an occupied coordinate of
/// the addressed `PLAYING` game fails with `CoordinateAlreadyPlayed`, whoever
/// calls and whether or not it is their turn.
pub proof fn lemma_occupied_cell_rejected_play(
    s0: StoreV,
    s1: StoreV,
    info: MessageInfoV,
    as_host: bool,
    coord: Coord,
    opponent: Seq<char>,
    game_id: u64,
    r: Result<Response, ContractError>,
)
    requires
        store_wf(s0),
        play_post(s0, s1, info, as_host, coord, opponent, game_id, r),
        is_ascii_seq(opponent),
        mock_addr_valid(opponent),
        coord_valid(coord),
        found_with_status(
            s0.games,
            role_key(info.sender, as_host, opponent, game_id),
            Status::PLAYING,
        ),
        occupied(
            lookup(s0.games, role_key(info.sender, as_host, opponent, game_id)).unwrap().board,
            coord,
        ),
    ensures
        r matches Err(e) && e@ == (ErrorV::CoordinateAlreadyPlayed { coord }),
{
}

/// Turns alternate strictly: after a successful move that leaves the game in
/// play, a second, otherwise legal move by the same role fails with
/// `TurnAlreadyPlayed`.
pub proof fn lemma_turn_alternation(
    s0: StoreV,
    s1: StoreV,
    s2: StoreV,
    info1: MessageInfoV,
    info2: MessageInfoV,
    as_host: bool,
    coord1: Coord,
    coord2: Coord,
    opponent: Seq<char>,
    game_id: u64,
    r1: Result<Response, ContractError>,
    r2: Result<Response, ContractError>,
)
    requires
        store_wf(s0),
        play_post(s0, s1, info1, as_host, coord1, opponent, game_id, r1),
        r1 is Ok,
        info2.sender == info1.sender,
        play_post(s1, s2, info2, as_host, coord2, opponent, game_id, r2),
        spec_play_result(
            lookup(s0.games, role_key(info1.sender, as_host, opponent, game_id)).unwrap(),
            coord1,
        ).status == Status::PLAYING,
        is_ascii_seq(opponent),
        mock_addr_valid(opponent),
        coord_valid(coord2),
        !occupied(
            lookup(s1.games, role_key(info1.sender, as_host, opponent, game_id)).unwrap().board,
            coord2,
        ),
    ensures
        r2 matches Err(e) && e@ == (ErrorV::TurnAlreadyPlayed { second_player: opponent }),
{
    let k = role_key(info1.sender, as_host, opponent, game_id);
    let g0 = lookup(s0.games, k).unwrap();
    let g1 = spec_play_result(g0, coord1);
    lemma_find_index(s0.games, k);
    let fi = find_index(s0.games, k);
    let e = EntryV { host: k.0, opponent: k.1, game_id: k.2, game: g1 };
    assert(entry_key(s0.games[fi]) == k);
    lemma_lookup_update(s0.games, fi, e, k);
    assert(lookup(s1.games, k) == Some(g1));
    assert(g1.player_round == Some(other_symbol(role_symbol(g0, as_host))));
    assert(role_symbol(g1, as_host) == role_symbol(g0, as_host));
    assert(spec_already_played(g1, as_host));
    assert(found_with_status(s1.games, k, Status::PLAYING));
}

/// One recorded action: who called, what they asked, what came back.
pub struct StepV {
    pub info: MessageInfoV,
    pub msg: ExecuteMsg,
    pub result: Result<Response, ContractError>,
}

/// The key an action addresses: the new key for an invitation, the role's
/// key for a rejection or a move, (host, sender) for an acceptance.
pub open spec fn touched_key(info: MessageInfoV, msg: ExecuteMsg, s: StoreV) -> KeyV {
    match msg {
        ExecuteMsg::Invite { coord, opponent } => (
            info.sender,
            opponent@,
            (s.games_count + 1) as u64,
        ),
        ExecuteMsg::Reject { as_host, opponent, game_id } => role_key(
            info.sender,
            as_host,
            opponent@,
            game_id,
        ),
        ExecuteMsg::Accept { coord, host, game_id } => (host@, info.sender, game_id),
        ExecuteMsg::Play { as_host, coord, opponent, game_id } => role_key(
            info.sender,
            as_host,
            opponent@,
            game_id,
        ),
    }
}

/// The value transfers one step pays out on the game under `k`: the step's
/// messages when it addressed `k` and succeeded, nothing otherwise.
pub open spec fn paid_for_key(s: StoreV, step: StepV, k: KeyV) -> Seq<BankMsgV> {
    match step.result {
        Ok(resp) => if touched_key(step.info, step.msg, s) == k {
            resp@.messages
        } else {
            Seq::empty()
        },
        Err(_) => Seq::empty(),
    }
}

/// The total paid out on the game under `k`, at coin position `i`, over a
/// whole trace of actions.
pub open spec fn trace_paid_at(
    stores: Seq<StoreV>,
    steps: Seq<StepV>,
    k: KeyV,
    i: int,
) -> int
    decreases steps.len(),
{
    if steps.len() == 0 {
        0
    } else {
        trace_paid_at(stores.drop_last(), steps.drop_last(), k, i) + paid_at(
            paid_for_key(stores[steps.len() - 1], steps.last(), k),
            i,
        )
    }
}

/// The stores and steps form a chain of actions.
pub open spec fn trace_ok(stores: Seq<StoreV>, steps: Seq<StepV>) -> bool {
    &&& stores.len() == steps.len() + 1
    &&& forall|j: int|
        0 <= j < steps.len() ==> store_wf(#[trigger] stores[j]) && execute_post(
            stores[j],
            stores[j + 1],
            steps[j].info,
            steps[j].msg,
            steps[j].result,
        )
}

/// An action addressed at another key leaves the game under `k` exactly as it
/// was.
proof fn lemma_untouched_key_frame(
    s0: StoreV,
    s1: StoreV,
    info: MessageInfoV,
    msg: ExecuteMsg,
    r: Result<Response, ContractError>,
)
    requires
        store_wf(s0),
        execute_post(s0, s1, info, msg, r),
    ensures
        forall|k: KeyV|
            k != touched_key(info, msg, s0) ==> #[trigger] lookup(s1.games, k) == lookup(
                s0.games,
                k,
            ),
{
    assert forall|k: KeyV|
        k != touched_key(info, msg, s0) implies #[trigger] lookup(s1.games, k) == lookup(
        s0.games,
        k,
    ) by {
        match (msg, r) {
            (ExecuteMsg::Invite { coord, opponent }, Ok(resp)) => {
                let e = EntryV {
                    host: info.sender,
                    opponent: opponent@,
                    game_id: (s0.games_count + 1) as u64,
                    game: crate::state::spec_new_game(coord, info.funds),
                };
                lemma_find_index(s0.games, k);
                lemma_insert_pos(s0.games, entry_key(e));
                lemma_lookup_insert(s0.games, insert_pos(s0.games, entry_key(e)), e, k);
            },
            (ExecuteMsg::Reject { as_host, opponent, game_id }, Ok(resp)) => {
                let k2 = role_key(info.sender, as_host, opponent@, game_id);
                let g0 = lookup(s0.games, k2).unwrap();
                let gw = crate::execution::with_status(g0, Status::REJECTED);
                lemma_find_index(s0.games, k2);
                lemma_lookup_update(
                    s0.games,
                    find_index(s0.games, k2),
                    (EntryV { host: k2.0, opponent: k2.1, game_id: k2.2, game: gw }),
                    k,
                );
            },
            (ExecuteMsg::Accept { coord, host, game_id }, Ok(resp)) => {
                let k2 = (host@, info.sender, game_id);
                let g0 = lookup(s0.games, k2).unwrap();
                let gw = crate::execution::spec_accept_game(g0, coord);
                lemma_find_index(s0.games, k2);
                lemma_lookup_update(
                    s0.games,
                    find_index(s0.games, k2),
                    (EntryV { host: k2.0, opponent: k2.1, game_id: k2.2, game: gw }),
                    k,
                );
            },
            (ExecuteMsg::Play { as_host, coord, opponent, game_id }, Ok(resp)) => {
                let k2 = role_key(info.sender, as_host, opponent@, game_id);
                let g0 = lookup(s0.games, k2).unwrap();
                let gw = spec_play_result(g0, coord);
                lemma_find_index(s0.games, k2);
                lemma_lookup_update(
                    s0.games,
                    find_index(s0.games, k2),
                    (EntryV { host: k2.0, opponent: k2.1, game_id: k2.2, game: gw }),
                    k,
                );
            },
            _ => {},
        }
    }
}

/// An action addressed at the game under `k` reaches, on success, exactly the
/// record the posted transition says; this names what the touched record
/// becomes.
proof fn lemma_touched_key_change(
    s0: StoreV,
    s1: StoreV,
    info: MessageInfoV,
    msg: ExecuteMsg,
    r: Result<Response, ContractError>,
    k: KeyV,
)
    requires
        store_wf(s0),
        execute_post(s0, s1, info, msg, r),
        r is Ok,
        k == touched_key(info, msg, s0),
    ensures
        match msg {
            ExecuteMsg::Invite { coord, opponent } => lookup(s0.games, k) is None && lookup(
                s1.games,
                k,
            ) == Some(crate::state::spec_new_game(coord, info.funds)),
            ExecuteMsg::Reject { .. } => lookup(s1.games, k) == Some(
                crate::execution::with_status(lookup(s0.games, k).unwrap(), Status::REJECTED),
            ),
            ExecuteMsg::Accept { coord, .. } => lookup(s1.games, k) == Some(
                crate::execution::spec_accept_game(lookup(s0.games, k).unwrap(), coord),
            ),
            ExecuteMsg::Play { coord, .. } => lookup(s1.games, k) == Some(
                spec_play_result(lookup(s0.games, k).unwrap(), coord),
            ),
        },
{
    match (msg, r) {
        (ExecuteMsg::Invite { coord, opponent }, Ok(resp)) => {
            let e = EntryV {
                host: info.sender,
                opponent: opponent@,
                game_id: (s0.games_count + 1) as u64,
                game: crate::state::spec_new_game(coord, info.funds),
            };
            lemma_find_index(s0.games, k);
            if find_index(s0.games, k) < s0.games.len() {
                assert(s0.games[find_index(s0.games, k)].game_id <= s0.games_count);
            }
            lemma_insert_pos(s0.games, entry_key(e));
            lemma_lookup_insert(s0.games, insert_pos(s0.games, entry_key(e)), e, k);
        },
        (ExecuteMsg::Reject { as_host, opponent, game_id }, Ok(resp)) => {
            let g0 = lookup(s0.games, k).unwrap();
            let gw = crate::execution::with_status(g0, Status::REJECTED);
            lemma_find_index(s0.games, k);
            lemma_lookup_update(
                s0.games,
                find_index(s0.games, k),
                (EntryV { host: k.0, opponent: k.1, game_id: k.2, game: gw }),
                k,
            );
        },
        (ExecuteMsg::Accept { coord, host, game_id }, Ok(resp)) => {
            let g0 = lookup(s0.games, k).unwrap();
            let gw = crate::execution::spec_accept_game(g0, coord);
            lemma_find_index(s0.games, k);
            lemma_lookup_update(
                s0.games,
                find_index(s0.games, k),
                (EntryV { host: k.0, opponent: k.1, game_id: k.2, game: gw }),
                k,
            );
        },
        (ExecuteMsg::Play { as_host, coord, opponent, game_id }, Ok(resp)) => {
            let g0 = lookup(s0.games, k).unwrap();
            let gw = spec_play_result(g0, coord);
            lemma_find_index(s0.games, k);
            lemma_lookup_update(
                s0.games,
                find_index(s0.games, k),
                (EntryV { host: k.0, opponent: k.1, game_id: k.2, game: gw }),
                k,
            );
        },
        _ => {},
    }
}

/// Escrow conservation over any sequence of actions on one game: if the game
/// ends the trace terminated, the total ever paid out on it equals, at every
/// coin position, exactly the escrow it terminated with; a game that was
/// already terminated when the trace began, or never terminates, is paid
/// nothing over the whole trace.
pub proof fn lemma_trace_conservation(stores: Seq<StoreV>, steps: Seq<StepV>, k: KeyV, i: int)
    requires
        trace_ok(stores, steps),
    ensures
        match lookup(stores[0].games, k) {
            Some(g0) => status_terminal(g0.status) ==> trace_paid_at(stores, steps, k, i) == 0
                && lookup(stores.last().games, k) == Some(g0),
            None => true,
        },
        !(lookup(stores[0].games, k) matches Some(g0) && status_terminal(g0.status)) ==> match lookup(
            stores.last().games,
            k,
        ) {
            Some(g) => {
                &&& (status_terminal(g.status) && 0 <= i < g.prize.len() ==> trace_paid_at(
                    stores,
                    steps,
                    k,
                    i,
                ) == g.prize[i].amount)
                &&& (!status_terminal(g.status) ==> trace_paid_at(stores, steps, k, i) == 0)
            },
            None => trace_paid_at(stores, steps, k, i) == 0,
        },
    decreases steps.len(),
{
    if steps.len() == 0 {
        assert(stores.last() == stores[0]);
    } else {
        let n = steps.len() as int;
        let prefix_stores = stores.drop_last();
        let prefix_steps = steps.drop_last();
        assert(trace_ok(prefix_stores, prefix_steps)) by {
            assert forall|j: int|
                0 <= j < prefix_steps.len() implies store_wf(#[trigger] prefix_stores[j])
                && execute_post(
                prefix_stores[j],
                prefix_stores[j + 1],
                prefix_steps[j].info,
                prefix_steps[j].msg,
                prefix_steps[j].result,
            ) by {
                assert(prefix_stores[j] == stores[j]);
                assert(prefix_stores[j + 1] == stores[j + 1]);
                assert(prefix_steps[j] == steps[j]);
            }
        }
        lemma_trace_conservation(prefix_stores, prefix_steps, k, i);
        let sa = stores[n - 1];
        let sb = stores[n];
        assert(prefix_stores.last() == sa);
        assert(stores.last() == sb);
        let step = steps.last();
        assert(store_wf(sa) && execute_post(sa, sb, step.info, step.msg, step.result)) by {
            assert(stores[n - 1] == prefix_stores[n - 1] || true);
            assert(steps[n - 1] == step);
        }
        let tk = touched_key(step.info, step.msg, sa);
        let paid = paid_for_key(sa, step, k);
        lemma_escrow_conservation(sa, sb, step.info, step.msg, step.result);
        lemma_untouched_key_frame(sa, sb, step.info, step.msg, step.result);
        if step.result is Err {
            assert(sb == sa) by {
                match step.msg {
                    ExecuteMsg::Invite { .. } => {},
                    ExecuteMsg::Reject { .. } => {},
                    ExecuteMsg::Accept { .. } => {},
                    ExecuteMsg::Play { .. } => {},
                }
            }
            assert(paid =~= Seq::<BankMsgV>::empty());
            assert(paid_at(paid, i) == 0);
        } else if tk != k {
            assert(lookup(sb.games, k) == lookup(sa.games, k));
            assert(paid =~= Seq::<BankMsgV>::empty());
            assert(paid_at(paid, i) == 0);
        } else {
            lemma_touched_key_change(sa, sb, step.info, step.msg, step.result, k);
            match step.msg {
                ExecuteMsg::Invite { coord, opponent } => {
                    assert(lookup(sa.games, k) is None);
                    assert(paid == match step.result {
                        Ok(resp) => resp@.messages,
                        Err(_) => Seq::<BankMsgV>::empty(),
                    });
                    assert(paid.len() == 0);
                    assert(paid_at(paid, i) == 0);
                },
                ExecuteMsg::Reject { as_host, opponent, game_id } => {
                    let g0 = lookup(sa.games, k).unwrap();
                    assert(!status_terminal(g0.status));
                    assert(lookup(sb.games, k) == Some(
                        crate::execution::with_status(g0, Status::REJECTED),
                    ));
                    if 0 <= i < g0.prize.len() {
                        assert(paid_at(paid, i) == g0.prize[i].amount);
                    }
                },
                ExecuteMsg::Accept { coord, host, game_id } => {
                    let g0 = lookup(sa.games, k).unwrap();
                    assert(!status_terminal(g0.status));
                    assert(paid.len() == 0);
                    assert(paid_at(paid, i) == 0);
                    assert(!status_terminal(
                        crate::execution::spec_accept_game(g0, coord).status,
                    ));
                },
                ExecuteMsg::Play { as_host, coord, opponent, game_id } => {
                    let g0 = lookup(sa.games, k).unwrap();
                    assert(!status_terminal(g0.status));
                    let res = spec_play_result(g0, coord);
                    assert(lookup(sb.games, k) == Some(res));
                    assert(res.prize == g0.prize);
                    if res.status == Status::COMPLETED {
                        if 0 <= i < g0.prize.len() {
                            assert(paid_at(paid, i) == g0.prize[i].amount);
                        }
                    } else {
                        assert(paid.len() == 0);
                        assert(paid_at(paid, i) == 0);
                    }
                },
            }
        }
    }
}

} // verus!
