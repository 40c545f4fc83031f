use vstd::prelude::*;

verus! {

/// A position on the 3x3 board. Valid when both components are in [0, 2].
#[derive(Clone, Copy, Debug, PartialEq, Eq, Structural)]
pub struct Coord {
    pub x: u8,
    pub y: u8,
}

pub open spec fn coord_valid(c: Coord) -> bool {
    c.x <= 2 && c.y <= 2
}

impl Coord {
    /// Bounds check for a coordinate: both components must be in [0, 2].
    pub fn is_valid(&self) -> (r: bool)
        ensures
            r == coord_valid(*self),
    {
        self.x <= 2 && self.y <= 2
    }
}

/// The marker a participant plays with. The host always plays `X`,
/// the opponent always plays `O`.
#[derive(Clone, Copy, Debug, PartialEq, Eq, Structural)]
pub enum PlayerSymbol {
    X,
    O,
}

pub open spec fn other_symbol(s: PlayerSymbol) -> PlayerSymbol {
    match s {
        PlayerSymbol::X => PlayerSymbol::O,
        PlayerSymbol::O => PlayerSymbol::X,
    }
}

pub open spec fn symbol_label(s: PlayerSymbol) -> Seq<char> {
    match s {
        PlayerSymbol::X => "X"@,
        PlayerSymbol::O => "O"@,
    }
}

impl PlayerSymbol {
    /// The display label of the symbol, used in response attributes.
    pub fn label(&self) -> (r: String)
        ensures
            r@ == symbol_label(*self),
    {
        match self {
            PlayerSymbol::X => String::from_str("X"),
            PlayerSymbol::O => String::from_str("O"),
        }
    }

    /// The symbol of the other participant.
    pub fn other(self) -> (r: PlayerSymbol)
        ensures
            r == other_symbol(self),
    {
        match self {
            PlayerSymbol::X => PlayerSymbol::O,
            PlayerSymbol::O => PlayerSymbol::X,
        }
    }
}

/// Lifecycle state of a game. Progression is forward-only:
/// `INVITED -> {REJECTED, PLAYING}`, `PLAYING -> {PLAYING, COMPLETED}`;
/// `REJECTED` and `COMPLETED` are terminal.
#[allow(non_camel_case_types)]
#[derive(Clone, Copy, Debug, PartialEq, Eq, Structural)]
pub enum Status {
    INVITED,
    REJECTED,
    PLAYING,
    COMPLETED,
}

pub open spec fn status_terminal(s: Status) -> bool {
    s == Status::REJECTED || s == Status::COMPLETED
}

/// The transitions the lifecycle allows in a single step (staying put included).
pub open spec fn status_step_ok(a: Status, b: Status) -> bool {
    ||| a == b
    ||| (a == Status::INVITED && (b == Status::REJECTED || b == Status::PLAYING))
    ||| (a == Status::PLAYING && b == Status::COMPLETED)
}

impl Status {
    /// The display label of the status, used in response attributes.
    pub fn label(&self) -> (r: String)
        ensures
            r@ == status_label(*self),
    {
        match self {
            Status::INVITED => String::from_str("invited"),
            Status::REJECTED => String::from_str("rejected"),
            Status::PLAYING => String::from_str("playing"),
            Status::COMPLETED => String::from_str("completed"),
        }
    }
}

pub open spec fn status_label(s: Status) -> Seq<char> {
    match s {
        Status::INVITED => "invited"@,
        Status::REJECTED => "rejected"@,
        Status::PLAYING => "playing"@,
        Status::COMPLETED => "completed"@,
    }
}

/// One denomination of staked value.
#[derive(Clone, Debug, PartialEq, Eq)]
pub struct Coin {
    pub denom: String,
    pub amount: u128,
}

/// Mathematical image of a `Coin`.
pub struct CoinV {
    pub denom: Seq<char>,
    pub amount: int,
}

impl View for Coin {
    type V = CoinV;

    open spec fn view(&self) -> CoinV {
        CoinV { denom: self.denom@, amount: self.amount as int }
    }
}

pub open spec fn coins_view(v: Seq<Coin>) -> Seq<CoinV> {
    v.map(|i: int, c: Coin| c@)
}

/// A single-denomination fund list, as callers attach to an action.
pub fn coins(amount: u128, denom: &str) -> (r: Vec<Coin>)
    ensures
        coins_view(r@) =~= seq![CoinV { denom: denom@, amount: amount as int }],
{
    let mut v: Vec<Coin> = Vec::new();
    v.push(Coin { denom: String::from_str(denom), amount });
    v
}

/// Copy a fund list; the view is preserved exactly.
pub fn clone_coins(v: &Vec<Coin>) -> (r: Vec<Coin>)
    ensures
        coins_view(r@) =~= coins_view(v@),
{
    let mut out: Vec<Coin> = Vec::new();
    let mut i: usize = 0;
    while i < v.len()
        invariant
            i <= v.len(),
            out@.len() == i,
            forall|j: int| 0 <= j < i ==> out@[j]@ == v@[j]@,
        decreases v.len() - i,
    {
        let c = Coin { denom: v[i].denom.clone(), amount: v[i].amount };
        out.push(c);
        i = i + 1;
    }
    assert forall|j: int| 0 <= j < v@.len() implies coins_view(out@)[j] == coins_view(v@)[j] by {
        assert(out@[j]@ == v@[j]@);
    }
    out
}

/// The 3x3 grid; `board[y][x]` is the cell at column `x`, row `y`.
pub type Board = Vec<Vec<Option<PlayerSymbol>>>;

pub type BoardV = Seq<Seq<Option<PlayerSymbol>>>;

pub open spec fn board_view(b: Board) -> BoardV {
    b@.map(|i: int, row: Vec<Option<PlayerSymbol>>| row@)
}

pub open spec fn board_wf(b: BoardV) -> bool {
    b.len() == 3 && (forall|y: int| 0 <= y < 3 ==> (#[trigger] b[y]).len() == 3)
}

pub open spec fn empty_board() -> BoardV {
    seq![seq![None, None, None], seq![None, None, None], seq![None, None, None]]
}

pub open spec fn cell(b: BoardV, c: Coord) -> Option<PlayerSymbol> {
    b[c.y as int][c.x as int]
}

pub open spec fn occupied(b: BoardV, c: Coord) -> bool {
    cell(b, c) is Some
}

/// The board with the cell at `c` marked by `s`; all other cells unchanged.
pub open spec fn mark(b: BoardV, c: Coord, s: PlayerSymbol) -> BoardV {
    b.update(c.y as int, b[c.y as int].update(c.x as int, Some(s)))
}

pub open spec fn row_line(b: BoardV, y: int, s: PlayerSymbol) -> bool {
    b[y][0] == Some(s) && b[y][1] == Some(s) && b[y][2] == Some(s)
}

pub open spec fn col_line(b: BoardV, x: int, s: PlayerSymbol) -> bool {
    b[0][x] == Some(s) && b[1][x] == Some(s) && b[2][x] == Some(s)
}

pub open spec fn diag_line(b: BoardV, s: PlayerSymbol) -> bool {
    b[0][0] == Some(s) && b[1][1] == Some(s) && b[2][2] == Some(s)
}

pub open spec fn anti_diag_line(b: BoardV, s: PlayerSymbol) -> bool {
    b[0][2] == Some(s) && b[1][1] == Some(s) && b[2][0] == Some(s)
}

/// `s` owns one of the eight winning lines: three rows, three columns,
/// the two diagonals.
pub open spec fn has_line(b: BoardV, s: PlayerSymbol) -> bool {
    ||| row_line(b, 0, s) || row_line(b, 1, s) || row_line(b, 2, s)
    ||| col_line(b, 0, s) || col_line(b, 1, s) || col_line(b, 2, s)
    ||| diag_line(b, s) || anti_diag_line(b, s)
}

pub open spec fn board_full(b: BoardV) -> bool {
    forall|x: int, y: int| 0 <= x < 3 && 0 <= y < 3 ==> b[y][x] is Some
}

/// Bridges `board_view` back to the views of the underlying vectors.
pub proof fn lemma_board_view(b: &Board)
    requires
        board_wf(board_view(*b)),
    ensures
        b@.len() == 3,
        board_view(*b)[0] == b@[0]@ && b@[0]@.len() == 3,
        board_view(*b)[1] == b@[1]@ && b@[1]@.len() == 3,
        board_view(*b)[2] == b@[2]@ && b@[2]@.len() == 3,
{
    assert(board_view(*b).len() == b@.len());
    assert(board_view(*b)[0] == b@[0]@);
    assert(board_view(*b)[1] == b@[1]@);
    assert(board_view(*b)[2] == b@[2]@);
}

fn empty_row() -> (r: Vec<Option<PlayerSymbol>>)
    ensures
        r@ =~= seq![None::<PlayerSymbol>, None, None],
{
    let mut r: Vec<Option<PlayerSymbol>> = Vec::new();
    r.push(None);
    r.push(None);
    r.push(None);
    r
}

fn new_board() -> (b: Board)
    ensures
        board_view(b) =~= empty_board(),
{
    let mut b: Board = Vec::new();
    b.push(empty_row());
    b.push(empty_row());
    b.push(empty_row());
    b
}

fn clone_board(b: &Board) -> (r: Board)
    ensures
        board_view(r) =~= board_view(*b),
{
    let mut r: Board = Vec::new();
    let mut y: usize = 0;
    while y < b.len()
        invariant
            y <= b@.len(),
            r@.len() == y,
            forall|i: int| 0 <= i < y ==> r@[i]@ =~= b@[i]@,
        decreases b@.len() - y,
    {
        let mut row: Vec<Option<PlayerSymbol>> = Vec::new();
        let mut x: usize = 0;
        while x < b[y].len()
            invariant
                y < b@.len(),
                x <= b@[y as int]@.len(),
                row@.len() == x,
                forall|j: int| 0 <= j < x ==> row@[j] == b@[y as int]@[j],
            decreases b@[y as int]@.len() - x,
        {
            row.push(b[y][x]);
            x = x + 1;
        }
        assert(row@ =~= b@[y as int]@);
        r.push(row);
        y = y + 1;
    }
    assert forall|i: int| 0 <= i < b@.len() implies board_view(r)[i] == board_view(*b)[i] by {
        assert(r@[i]@ =~= b@[i]@);
    }
    r
}

/// Whether the board holds a winning line for `s`.
fn board_has_line(b: &Board, s: PlayerSymbol) -> (r: bool)
    requires
        board_wf(board_view(*b)),
    ensures
        r == has_line(board_view(*b), s),
{
    proof {
        lemma_board_view(b);
    }
    let m = Some(s);
    let r0 = b[0][0] == m && b[0][1] == m && b[0][2] == m;
    let r1 = b[1][0] == m && b[1][1] == m && b[1][2] == m;
    let r2 = b[2][0] == m && b[2][1] == m && b[2][2] == m;
    let c0 = b[0][0] == m && b[1][0] == m && b[2][0] == m;
    let c1 = b[0][1] == m && b[1][1] == m && b[2][1] == m;
    let c2 = b[0][2] == m && b[1][2] == m && b[2][2] == m;
    let d = b[0][0] == m && b[1][1] == m && b[2][2] == m;
    let a = b[0][2] == m && b[1][1] == m && b[2][0] == m;
    r0 || r1 || r2 || c0 || c1 || c2 || d || a
}

/// Scans the eight lines and returns the symbol owning one, if any;
/// `X` is reported when both symbols own a line (which no legal game reaches).
pub fn detect_winner(b: &Board) -> (r: Option<PlayerSymbol>)
    requires
        board_wf(board_view(*b)),
    ensures
        r == (if has_line(board_view(*b), PlayerSymbol::X) {
            Some(PlayerSymbol::X)
        } else if has_line(board_view(*b), PlayerSymbol::O) {
            Some(PlayerSymbol::O)
        } else {
            None::<PlayerSymbol>
        }),
{
    if board_has_line(b, PlayerSymbol::X) {
        Some(PlayerSymbol::X)
    } else if board_has_line(b, PlayerSymbol::O) {
        Some(PlayerSymbol::O)
    } else {
        None
    }
}

/// Whether the cell at `c` is non-empty.
pub fn is_occupied(b: &Board, c: Coord) -> (r: bool)
    requires
        board_wf(board_view(*b)),
        coord_valid(c),
    ensures
        r == occupied(board_view(*b), c),
{
    proof {
        lemma_board_view(b);
    }
    b[c.y as usize][c.x as usize].is_some()
}

/// Whether no empty cell remains.
pub fn is_full(b: &Board) -> (r: bool)
    requires
        board_wf(board_view(*b)),
    ensures
        r == board_full(board_view(*b)),
{
    proof {
        lemma_board_view(b);
    }
    let full = b[0][0].is_some() && b[0][1].is_some() && b[0][2].is_some()
        && b[1][0].is_some() && b[1][1].is_some() && b[1][2].is_some()
        && b[2][0].is_some() && b[2][1].is_some() && b[2][2].is_some();
    proof {
        if full {
            assert forall|x: int, y: int| 0 <= x < 3 && 0 <= y < 3 implies board_view(*b)[y][x] is Some by {
            }
        } else {
            assert(!board_full(board_view(*b)));
        }
    }
    full
}

/// The aggregate state of one game.
#[derive(Clone, Debug, PartialEq, Eq)]
pub struct Game {
    pub board: Board,
    pub player_round: Option<PlayerSymbol>,
    pub host_symbol: PlayerSymbol,
    pub prize: Vec<Coin>,
    pub status: Status,
    pub winner: Option<PlayerSymbol>,
}

/// Mathematical image of a `Game`.
pub struct GameV {
    pub board: BoardV,
    pub player_round: Option<PlayerSymbol>,
    pub host_symbol: PlayerSymbol,
    pub prize: Seq<CoinV>,
    pub status: Status,
    pub winner: Option<PlayerSymbol>,
}

impl View for Game {
    type V = GameV;

    open spec fn view(&self) -> GameV {
        GameV {
            board: board_view(self.board),
            player_round: self.player_round,
            host_symbol: self.host_symbol,
            prize: coins_view(self.prize@),
            status: self.status,
            winner: self.winner,
        }
    }
}

/// The board as an invitation leaves it: empty but for the host's opening `X`.
pub open spec fn opening_board(b: BoardV) -> bool {
    exists|c: Coord| coord_valid(c) && b == mark(empty_board(), c, PlayerSymbol::X)
}

/// Every staked amount can still be doubled without overflowing.
pub open spec fn prize_doublable(p: Seq<CoinV>) -> bool {
    forall|i: int| 0 <= i < p.len() ==> 0 <= #[trigger] p[i].amount && p[i].amount * 2 <= u128::MAX as int
}

/// Every staked amount is even, so a draw splits the escrow exactly.
pub open spec fn prize_even(p: Seq<CoinV>) -> bool {
    forall|i: int| 0 <= i < p.len() ==> 0 <= #[trigger] p[i].amount && p[i].amount % 2 == 0 && p[i].amount <= u128::MAX as int
}

/// Well-formedness of a game, preserved by every transition.
pub open spec fn game_wf(g: GameV) -> bool {
    &&& board_wf(g.board)
    &&& g.host_symbol == PlayerSymbol::X
    &&& match g.status {
        Status::INVITED => {
            &&& g.player_round == Some(PlayerSymbol::O)
            &&& g.winner is None
            &&& opening_board(g.board)
            &&& prize_doublable(g.prize)
        },
        Status::REJECTED => {
            &&& g.player_round == Some(PlayerSymbol::O)
            &&& g.winner is None
        },
        Status::PLAYING => {
            &&& g.player_round is Some
            &&& g.winner is None
            &&& !has_line(g.board, PlayerSymbol::X)
            &&& !has_line(g.board, PlayerSymbol::O)
            &&& prize_even(g.prize)
        },
        Status::COMPLETED => {
            &&& g.player_round is None
            &&& match g.winner {
                Some(s) => has_line(g.board, s),
                None => !has_line(g.board, PlayerSymbol::X) && !has_line(g.board, PlayerSymbol::O),
            }
        },
    }
}

/// The game an invitation creates: the host's opening mark placed, the
/// opponent to move once play begins, the host's deposit in escrow.
pub open spec fn spec_new_game(c: Coord, prize: Seq<CoinV>) -> GameV {
    GameV {
        board: mark(empty_board(), c, PlayerSymbol::X),
        player_round: Some(PlayerSymbol::O),
        host_symbol: PlayerSymbol::X,
        prize,
        status: Status::INVITED,
        winner: None,
    }
}

/// The symbol `play` marks with: the round's symbol, or the host's for the
/// opening move.
pub open spec fn play_symbol_of(g: GameV) -> PlayerSymbol {
    match g.player_round {
        Some(s) => s,
        None => g.host_symbol,
    }
}

pub open spec fn spec_play(g: GameV, c: Coord) -> GameV {
    GameV {
        board: mark(g.board, c, play_symbol_of(g)),
        player_round: g.player_round,
        host_symbol: g.host_symbol,
        prize: g.prize,
        status: g.status,
        winner: g.winner,
    }
}

pub open spec fn spec_finish_round(g: GameV) -> GameV {
    GameV {
        board: g.board,
        player_round: Some(match g.player_round {
            Some(s) => other_symbol(s),
            None => other_symbol(g.host_symbol),
        }),
        host_symbol: g.host_symbol,
        prize: g.prize,
        status: g.status,
        winner: g.winner,
    }
}

pub open spec fn doubled_prize(p: Seq<CoinV>) -> Seq<CoinV> {
    p.map(|i: int, c: CoinV| CoinV { denom: c.denom, amount: c.amount * 2 })
}

pub open spec fn halved_prize(p: Seq<CoinV>) -> Seq<CoinV> {
    p.map(|i: int, c: CoinV| CoinV { denom: c.denom, amount: c.amount / 2 })
}

pub open spec fn spec_double_prize(g: GameV) -> GameV {
    GameV {
        board: g.board,
        player_round: g.player_round,
        host_symbol: g.host_symbol,
        prize: doubled_prize(g.prize),
        status: g.status,
        winner: g.winner,
    }
}

/// The symbol owed the next move by the caller in the given role.
pub open spec fn role_symbol(g: GameV, as_host: bool) -> PlayerSymbol {
    if as_host {
        g.host_symbol
    } else {
        other_symbol(g.host_symbol)
    }
}

/// The caller in the given role has no move owed: it is not their turn.
pub open spec fn spec_already_played(g: GameV, as_host: bool) -> bool {
    g.player_round != Some(role_symbol(g, as_host))
}

/// Marks the cell at `c`, all other cells untouched.
fn set_cell(b: &mut Board, c: Coord, s: PlayerSymbol)
    requires
        board_wf(board_view(*old(b))),
        coord_valid(c),
    ensures
        board_view(*final(b)) =~= mark(board_view(*old(b)), c, s),
{
    proof {
        lemma_board_view(b);
    }
    b[c.y as usize][c.x as usize] = Some(s);
    proof {
        let bv = board_view(*b);
        let mv = mark(board_view(*old(b)), c, s);
        assert forall|i: int| 0 <= i < 3 implies bv[i] == mv[i] by {
            assert(bv[i] == b@[i]@);
        }
        assert(bv.len() == 3);
    }
}

impl Game {
    /// A freshly invited game: the host's mark at `coord`, the deposit in
    /// escrow, status `INVITED`.
    pub fn new(coord: Coord, prize: Vec<Coin>) -> (g: Game)
        requires
            coord_valid(coord),
        ensures
            g@ == spec_new_game(coord, coins_view(prize@)),
    {
        let mut board = new_board();
        set_cell(&mut board, coord, PlayerSymbol::X);
        let g = Game {
            board,
            player_round: Some(PlayerSymbol::O),
            host_symbol: PlayerSymbol::X,
            prize,
            status: Status::INVITED,
            winner: None,
        };
        proof {
            assert(g@.board =~= spec_new_game(coord, coins_view(prize@)).board);
        }
        g
    }

    /// True iff the cell at `coord` is already marked.
    pub fn already_played_on(&self, coord: Coord) -> (r: bool)
        requires
            board_wf(self@.board),
            coord_valid(coord),
        ensures
            r == occupied(self@.board, coord),
    {
        is_occupied(&self.board, coord)
    }

    /// True iff it is not the turn of the caller in the given role.
    pub fn already_played(&self, as_host: bool) -> (r: bool)
        ensures
            r == spec_already_played(self@, as_host),
    {
        let sym = if as_host {
            self.host_symbol
        } else {
            self.host_symbol.other()
        };
        !(self.player_round == Some(sym))
    }

    /// A copy with every staked amount doubled, applied once at acceptance.
    pub fn double_prize(self) -> (g: Game)
        requires
            prize_doublable(self@.prize),
        ensures
            g@ == spec_double_prize(self@),
    {
        let mut doubled: Vec<Coin> = Vec::new();
        let mut i: usize = 0;
        while i < self.prize.len()
            invariant
                i <= self.prize.len(),
                prize_doublable(coins_view(self.prize@)),
                doubled@.len() == i,
                forall|j: int| 0 <= j < i ==> #[trigger] doubled@[j]@ == doubled_prize(coins_view(self.prize@))[j],
            decreases self.prize.len() - i,
        {
            proof {
                assert(coins_view(self.prize@)[i as int] == self.prize@[i as int]@);
                assert(coins_view(self.prize@)[i as int].amount * 2 <= u128::MAX as int);
            }
            let c = Coin { denom: self.prize[i].denom.clone(), amount: self.prize[i].amount * 2 };
            doubled.push(c);
            i = i + 1;
        }
        let g = Game {
            board: self.board,
            player_round: self.player_round,
            host_symbol: self.host_symbol,
            prize: doubled,
            status: self.status,
            winner: self.winner,
        };
        proof {
            assert forall|j: int| 0 <= j < g.prize@.len() implies coins_view(g.prize@)[j]
                == doubled_prize(coins_view(self.prize@))[j] by {
                assert(g.prize@[j]@ == doubled_prize(coins_view(self.prize@))[j]);
            }
            assert(coins_view(g.prize@) =~= doubled_prize(coins_view(self.prize@)));
        }
        g
    }

    /// A copy with the round's mark placed at `coord`.
    pub fn play(self, coord: Coord) -> (g: Game)
        requires
            board_wf(self@.board),
            coord_valid(coord),
        ensures
            g@ == spec_play(self@, coord),
    {
        let sym = match self.player_round {
            Some(s) => s,
            None => self.host_symbol,
        };
        let mut g = self;
        set_cell(&mut g.board, coord, sym);
        g
    }

    /// A copy with the round handed to the other symbol.
    pub fn finish_round(self) -> (g: Game)
        ensures
            g@ == spec_finish_round(self@),
    {
        let next = match self.player_round {
            Some(s) => s.other(),
            None => self.host_symbol.other(),
        };
        Game {
            board: self.board,
            player_round: Some(next),
            host_symbol: self.host_symbol,
            prize: self.prize,
            status: self.status,
            winner: self.winner,
        }
    }

    /// True iff the symbol whose round it is owns a line.
    pub fn is_current_player_winner(&self) -> (r: bool)
        requires
            board_wf(self@.board),
        ensures
            r == match self@.player_round {
                Some(s) => has_line(self@.board, s),
                None => false,
            },
    {
        match self.player_round {
            Some(s) => board_has_line(&self.board, s),
            None => false,
        }
    }

    /// True iff no empty cell remains.
    pub fn is_full_board(&self) -> (r: bool)
        requires
            board_wf(self@.board),
        ensures
            r == board_full(self@.board),
    {
        is_full(&self.board)
    }

    /// One party's share of a drawn game: every staked amount halved. The
    /// escrow of a game in play is always even — acceptance doubled it — so
    /// the two halves add back up to the whole prize.
    pub fn get_half_prize(&self) -> (r: Vec<Coin>)
        ensures
            coins_view(r@) =~= halved_prize(self@.prize),
    {
        let mut halved: Vec<Coin> = Vec::new();
        let mut i: usize = 0;
        while i < self.prize.len()
            invariant
                i <= self.prize.len(),
                halved@.len() == i,
                forall|j: int| 0 <= j < i ==> #[trigger] halved@[j]@ == halved_prize(coins_view(self.prize@))[j],
            decreases self.prize.len() - i,
        {
            proof {
                assert(coins_view(self.prize@)[i as int] == self.prize@[i as int]@);
            }
            let c = Coin { denom: self.prize[i].denom.clone(), amount: self.prize[i].amount / 2 };
            halved.push(c);
            i = i + 1;
        }
        proof {
            assert forall|j: int| 0 <= j < halved@.len() implies coins_view(halved@)[j]
                == halved_prize(coins_view(self.prize@))[j] by {
                assert(halved@[j]@ == halved_prize(coins_view(self.prize@))[j]);
            }
        }
        halved
    }

    /// An exact copy; the view is preserved.
    pub fn duplicate(&self) -> (g: Game)
        ensures
            g@ == self@,
    {
        let g = Game {
            board: clone_board(&self.board),
            player_round: self.player_round,
            host_symbol: self.host_symbol,
            prize: clone_coins(&self.prize),
            status: self.status,
            winner: self.winner,
        };
        proof {
            assert(g@.board =~= self@.board);
            assert(g@.prize =~= self@.prize);
        }
        g
    }
}

/// Exact equality of fund lists: same length, denominations and amounts in
/// the same order.
pub open spec fn coins_equal(a: Seq<CoinV>, b: Seq<CoinV>) -> bool {
    a.len() == b.len() && forall|i: int| 0 <= i < a.len() ==> a[i] == b[i]
}

/// Compares two fund lists for exact equality.
pub fn coins_eq(a: &Vec<Coin>, b: &Vec<Coin>) -> (r: bool)
    ensures
        r == coins_equal(coins_view(a@), coins_view(b@)),
{
    if a.len() != b.len() {
        proof {
            assert(coins_view(a@).len() != coins_view(b@).len());
        }
        return false;
    }
    let mut i: usize = 0;
    while i < a.len()
        invariant
            i <= a@.len(),
            a@.len() == b@.len(),
            forall|j: int| 0 <= j < i ==> coins_view(a@)[j] == coins_view(b@)[j],
        decreases a@.len() - i,
    {
        proof {
            assert(coins_view(a@)[i as int] == a@[i as int]@);
            assert(coins_view(b@)[i as int] == b@[i as int]@);
        }
        if !(a[i].denom == b[i].denom) || a[i].amount != b[i].amount {
            return false;
        }
        i = i + 1;
    }
    true
}

} // verus!

