//! Rules of a two-player tic-tac-toe game on a 3 by 3 board: reading
//! commands and deciding whether a player has won.

use vstd::prelude::*;

verus! {

/// A player's mark.
#[derive(Clone, Copy, PartialEq, Eq, Debug, Structural)]
pub enum GameCommandMark {
    X,
    O,
}

/// A command typed by a player.
#[derive(Clone, Copy, PartialEq, Eq, Debug, Structural)]
pub enum GameCommand {
    /// Put a mark on row `x`, column `y`, both counted from 1.
    Mark(GameCommandMark, u8, u8),
    Quit,
    Restart,
}

/// The board: three rows of three cells, each `"-"` or a mark.
pub type Table = Vec<Vec<String>>;

/// A text with leading and trailing white space removed, as `str::trim` does.
pub uninterp spec fn trim_of(s: Seq<char>) -> Seq<char>;

/// A text in lower case, as `str::to_lowercase` does.
pub uninterp spec fn lower_of(s: Seq<char>) -> Seq<char>;

/// Relies on `str::trim`.
#[verifier::external_body]
fn trim(s: &str) -> (r: &str)
    ensures
        r@ == trim_of(s@),
{
    s.trim()
}

/// Relies on `str::to_lowercase`.
#[verifier::external_body]
fn lowercase(s: &str) -> (r: String)
    ensures
        r@ == lower_of(s@),
{
    s.to_lowercase()
}

/// The mark a character stands for, in either case.
pub open spec fn mark_of(c: char) -> Option<GameCommandMark> {
    if c == 'x' || c == 'X' {
        Some(GameCommandMark::X)
    } else if c == 'o' || c == 'O' {
        Some(GameCommandMark::O)
    } else {
        None
    }
}

/// The value of a decimal digit character.
pub open spec fn digit_value(c: char) -> Option<u8> {
    if '0' <= c && c <= '9' {
        Some((c as u32 - '0' as u32) as u8)
    } else {
        None
    }
}

/// A mark command: two digits from 1 to 3 and a mark, nothing more.
pub open spec fn mark_command(s: Seq<char>) -> Option<GameCommand> {
    if s.len() != 3 {
        None
    } else {
        match (digit_value(s[0]), digit_value(s[1]), mark_of(s[2])) {
            (Some(x), Some(y), Some(m)) => if 1 <= x <= 3 && 1 <= y <= 3 {
                Some(GameCommand::Mark(m, x, y))
            } else {
                None
            },
            _ => None,
        }
    }
}

/// The command typed as `raw`, given its trimmed lower-case form `normalized`.
pub open spec fn command_of(normalized: Seq<char>, raw: Seq<char>) -> Option<GameCommand> {
    if normalized == "quit"@ {
        Some(GameCommand::Quit)
    } else if normalized == "restart"@ {
        Some(GameCommand::Restart)
    } else {
        mark_command(raw)
    }
}

/// The mark a cell holds, read in lower case.
pub open spec fn cell_mark(cell: Seq<char>) -> Option<GameCommandMark> {
    if lower_of(cell) == "x"@ {
        Some(GameCommandMark::X)
    } else if lower_of(cell) == "o"@ {
        Some(GameCommandMark::O)
    } else {
        None
    }
}

/// The mark that fills three cells, if one does.
pub open spec fn line_mark(a: Seq<char>, b: Seq<char>, c: Seq<char>) -> Option<GameCommandMark> {
    match (cell_mark(a), cell_mark(b), cell_mark(c)) {
        (Some(GameCommandMark::X), Some(GameCommandMark::X), Some(GameCommandMark::X)) => Some(
            GameCommandMark::X,
        ),
        (Some(GameCommandMark::O), Some(GameCommandMark::O), Some(GameCommandMark::O)) => Some(
            GameCommandMark::O,
        ),
        _ => None,
    }
}

/// The first of `a` and `b` that holds a mark.
pub open spec fn first_of(a: Option<GameCommandMark>, b: Option<GameCommandMark>) -> Option<
    GameCommandMark,
> {
    if a is Some {
        a
    } else {
        b
    }
}

/// The winner of a board: rows are looked at first, then columns, then the
/// diagonal from the bottom left, then the one from the top left.
pub open spec fn winner(t: Seq<Seq<Seq<char>>>) -> Option<GameCommandMark> {
    first_of(
        line_mark(t[0][0], t[0][1], t[0][2]),
        first_of(
            line_mark(t[1][0], t[1][1], t[1][2]),
            first_of(
                line_mark(t[2][0], t[2][1], t[2][2]),
                first_of(
                    line_mark(t[0][0], t[1][0], t[2][0]),
                    first_of(
                        line_mark(t[0][1], t[1][1], t[2][1]),
                        first_of(
                            line_mark(t[0][2], t[1][2], t[2][2]),
                            first_of(
                                line_mark(t[2][0], t[1][1], t[0][2]),
                                line_mark(t[0][0], t[1][1], t[2][2]),
                            ),
                        ),
                    ),
                ),
            ),
        ),
    )
}

/// The board's cells as texts.
pub open spec fn table_view(t: Seq<Vec<String>>) -> Seq<Seq<Seq<char>>> {
    t.map_values(|row: Vec<String>| row@.map_values(|c: String| c@))
}

/// Three rows of three cells.
pub open spec fn is_board(t: Seq<Vec<String>>) -> bool {
    t.len() == 3 && forall|i: int| 0 <= i < 3 ==> (#[trigger] t[i])@.len() == 3
}

/// A new board: every cell `"-"`.
pub fn new_table() -> (r: Table)
    ensures
        is_board(r@),
        cells_filled(r@),
        forall|i: int, j: int| 0 <= i < 3 && 0 <= j < 3 ==> (#[trigger] r@[i]@[j])@ == "-"@,
{
    proof {
        reveal_strlit("-");
    }
    let mut t: Table = Vec::new();
    let mut i: usize = 0;
    while i < 3
        invariant
            i <= 3,
            t@.len() == i,
            forall|k: int| 0 <= k < i ==> (#[trigger] t@[k])@.len() == 3,
            forall|k: int, j: int| 0 <= k < i && 0 <= j < 3 ==> (#[trigger] t@[k]@[j])@ == "-"@,
        decreases 3 - i,
    {
        let row = vec![String::from_str("-"), String::from_str("-"), String::from_str("-")];
        t.push(row);
        i = i + 1;
    }
    t
}

impl GameCommandMark {
    /// The mark a character stands for, in either case.
    pub fn from(c: char) -> (r: Option<GameCommandMark>)
        ensures
            r == mark_of(c),
    {
        if c == 'x' || c == 'X' {
            Some(GameCommandMark::X)
        } else if c == 'o' || c == 'O' {
            Some(GameCommandMark::O)
        } else {
            None
        }
    }

    /// The upper-case character of the mark.
    pub fn to_char(&self) -> (r: char)
        ensures
            r == mark_char(*self),
    {
        match self {
            GameCommandMark::O => 'O',
            GameCommandMark::X => 'X',
        }
    }

    /// The other player's mark.
    pub fn toggle(&self) -> (r: GameCommandMark)
        ensures
            r == other_mark(*self),
    {
        match self {
            GameCommandMark::O => GameCommandMark::X,
            GameCommandMark::X => GameCommandMark::O,
        }
    }
}

/// The value of a decimal digit character.
fn to_digit(c: char) -> (r: Option<u8>)
    ensures
        r == digit_value(c),
{
    if '0' <= c && c <= '9' {
        Some((c as u32 - '0' as u32) as u8)
    } else {
        None
    }
}

/// The mark command that `s` spells, if any.
fn parse_mark_command(s: &str) -> (r: Option<GameCommand>)
    ensures
        r == mark_command(s@),
{
    if s.unicode_len() != 3 {
        return None;
    }
    let x = to_digit(s.get_char(0));
    let y = to_digit(s.get_char(1));
    let m = GameCommandMark::from(s.get_char(2));
    match (x, y, m) {
        (Some(x), Some(y), Some(m)) => if 1 <= x && x <= 3 && 1 <= y && y <= 3 {
            Some(GameCommand::Mark(m, x, y))
        } else {
            None
        },
        _ => None,
    }
}

impl GameCommand {
    /// Reads a command: `quit` or `restart` in any case and with white space
    /// around, or a mark command such as `12x`.
    pub fn buid(string: &str) -> (r: Result<GameCommand, &str>)
        ensures
            r matches Ok(c) ==> command_of(lower_of(trim_of(string@)), string@) == Some(c),
            r is Err <==> command_of(lower_of(trim_of(string@)), string@) is None,
            r matches Err(m) ==> m@ == "Invalid command"@,
    {
        let normalized = lowercase(trim(string));
        GameCommand::from_normalized(&normalized, string)
    }

    /// Reads the command typed as `raw`, given its trimmed lower-case form.
    pub fn from_normalized<'a>(normalized: &String, raw: &str) -> (r: Result<GameCommand, &'a str>)
        ensures
            r matches Ok(c) ==> command_of(normalized@, raw@) == Some(c),
            r is Err <==> command_of(normalized@, raw@) is None,
            r matches Err(m) ==> m@ == "Invalid command"@,
    {
        if *normalized == String::from_str("quit") {
            Ok(GameCommand::Quit)
        } else if *normalized == String::from_str("restart") {
            Ok(GameCommand::Restart)
        } else {
            match parse_mark_command(raw) {
                Some(command) => Ok(command),
                None => Err("Invalid command"),
            }
        }
    }
}

/// What a player's turn did.
#[derive(Clone, Copy, PartialEq, Eq, Debug, Structural)]
pub enum Turn {
    /// The input is no command.
    Invalid,
    /// The chosen cell already holds a mark; nothing changed.
    AlreadyMarked,
    /// The mark was put on the board and the other player is next.
    Marked,
    /// The player asked for a new game.
    Restart,
    /// The player asked to stop.
    Quit,
}

/// Where a game stands between two turns.
#[derive(Clone, Copy, PartialEq, Eq, Debug, Structural)]
pub enum GameState {
    /// The game is over; a player won, or nobody did.
    Finished(Option<GameCommandMark>),
    /// A player is to move.
    Playing,
    /// A new board is to be set up.
    New,
    /// The players stopped.
    Terminated,
}

/// The state after a turn on a board whose winner, if any, is `winner`:
/// a win finishes the game whatever the turn was; otherwise a restart starts a
/// new game, a quit ends, and any other turn goes on playing.
pub fn after_turn(turn: Turn, winner: Option<GameCommandMark>) -> (r: GameState)
    ensures
        r == (match winner {
            Some(m) => GameState::Finished(Some(m)),
            None => match turn {
                Turn::Restart => GameState::New,
                Turn::Quit => GameState::Terminated,
                _ => GameState::Playing,
            },
        }),
{
    match winner {
        Some(m) => GameState::Finished(Some(m)),
        None => match turn {
            Turn::Restart => GameState::New,
            Turn::Quit => GameState::Terminated,
            _ => GameState::Playing,
        },
    }
}

/// The character of a mark.
pub open spec fn mark_char(m: GameCommandMark) -> char {
    match m {
        GameCommandMark::O => 'O',
        GameCommandMark::X => 'X',
    }
}

/// The other mark.
pub open spec fn other_mark(m: GameCommandMark) -> GameCommandMark {
    match m {
        GameCommandMark::O => GameCommandMark::X,
        GameCommandMark::X => GameCommandMark::O,
    }
}

/// A two-character input names a cell only: the player's own mark is added.
pub open spec fn completed_input(input: Seq<char>, player: GameCommandMark) -> Seq<char> {
    if input.len() == 2 {
        input.push(mark_char(player))
    } else {
        input
    }
}

/// The command a player's input stands for.
pub open spec fn turn_command(input: Seq<char>, player: GameCommandMark) -> Option<GameCommand> {
    let full = completed_input(input, player);
    command_of(lower_of(trim_of(full)), full)
}

/// Every cell holds at least one character.
pub open spec fn cells_filled(t: Seq<Vec<String>>) -> bool {
    forall|i: int, j: int| 0 <= i < 3 && 0 <= j < 3 ==> (#[trigger] t[i]@[j])@.len() > 0
}

/// The board `t` with the cell at row `i`, column `j` set to `cell`.
pub open spec fn with_cell(t: Seq<Seq<Seq<char>>>, i: int, j: int, cell: Seq<char>) -> Seq<
    Seq<Seq<char>>,
> {
    t.update(i, t[i].update(j, cell))
}

/// Plays one turn of `player` with the typed `input` on `table`.
pub fn play_turn(table: &mut Table, player: &mut GameCommandMark, input: &str) -> (r: Turn)
    requires
        is_board(old(table)@),
        cells_filled(old(table)@),
    ensures
        is_board(final(table)@),
        cells_filled(final(table)@),
        ({
            let before = table_view(old(table)@);
            let after = table_view(final(table)@);
            let mover = *old(player);
            let next_player = *final(player);
            match turn_command(input@, mover) {
                None => r == Turn::Invalid && after == before && next_player == mover,
                Some(GameCommand::Quit) => r == Turn::Quit && after == before && next_player == mover,
                Some(GameCommand::Restart) => r == Turn::Restart && after == before && next_player == mover,
                Some(GameCommand::Mark(m, x, y)) => if mark_of(before[x - 1][y - 1][0]) is Some {
                    r == Turn::AlreadyMarked && after == before && next_player == mover
                } else {
                    r == Turn::Marked && after == with_cell(before, x - 1, y - 1, seq![mark_char(m)])
                        && next_player == other_mark(mover)
                },
            }
        }),
{
    let ghost before = table_view(table@);
    let mut full = String::from_str(input);
    if input.unicode_len() == 2 {
        let own = match *player {
            GameCommandMark::O => "O",
            GameCommandMark::X => "X",
        };
        proof {
            reveal_strlit("O");
            reveal_strlit("X");
        }
        full.append(own);
        assert(full@ =~= completed_input(input@, *player));
    }
    let command = match GameCommand::buid(full.as_str()) {
        Ok(c) => c,
        Err(_) => {
            return Turn::Invalid;
        },
    };
    match command {
        GameCommand::Mark(mark, x, y) => {
            let (i, j) = ((x - 1) as usize, (y - 1) as usize);
            assert(table@[i as int]@.len() == 3);
            assert(before[i as int][j as int] == table@[i as int]@[j as int]@);
            let first = table[i][j].as_str().get_char(0);
            match GameCommandMark::from(first) {
                Some(_) => Turn::AlreadyMarked,
                None => {
                    let cell = match mark {
                        GameCommandMark::O => String::from_str("O"),
                        GameCommandMark::X => String::from_str("X"),
                    };
                    proof {
                        reveal_strlit("O");
                        reveal_strlit("X");
                    }
                    assert(cell@ =~= seq![mark_char(mark)]);
                    let ghost old_rows = table@;
                    table[i][j] = cell;
                    *player = player.toggle();
                    let ghost goal = with_cell(before, i as int, j as int, seq![mark_char(mark)]);
                    assert forall|k: int| 0 <= k < 3 implies #[trigger] table_view(table@)[k]
                        =~= goal[k] by {
                        assert(table@[k]@.len() == 3);
                        if k != i {
                            assert(table@[k] == old_rows[k]);
                        }
                    }
                    assert(table_view(table@) =~= goal);
                    Turn::Marked
                },
            }
        },
        GameCommand::Restart => Turn::Restart,
        GameCommand::Quit => Turn::Quit,
    }
}

/// The mark that fills three cells, if one does.
fn equal3(a: &String, b: &String, c: &String) -> (r: Option<GameCommandMark>)
    ensures
        r == line_mark(a@, b@, c@),
{
    let x = String::from_str("x");
    let o = String::from_str("o");
    let (la, lb, lc) = (lowercase(a.as_str()), lowercase(b.as_str()), lowercase(c.as_str()));
    if la == x && lb == x && lc == x {
        Some(GameCommandMark::X)
    } else if la == o && lb == o && lc == o {
        Some(GameCommandMark::O)
    } else {
        None
    }
}

/// The winner of the board, if any.
pub fn is_somebody_won(table: &Table) -> (r: Option<GameCommandMark>)
    requires
        is_board(table@),
    ensures
        r == winner(table_view(table@)),
{
    let ghost t = table_view(table@);
    assert(forall|i: int, j: int|
        0 <= i < 3 && 0 <= j < 3 ==> #[trigger] t[i][j] == table@[i]@[j]@);
    let mut i: usize = 0;
    while i < 3
        invariant
            i <= 3,
            is_board(table@),
            t == table_view(table@),
            forall|k: int| 0 <= k < i ==> line_mark(#[trigger] t[k][0], t[k][1], t[k][2]) is None,
        decreases 3 - i,
    {
        let row = &table[i];
        assert(row@.len() == 3);
        match equal3(&row[0], &row[1], &row[2]) {
            Some(mark) => {
                return Some(mark);
            },
            None => {},
        }
        i = i + 1;
    }
    let mut j: usize = 0;
    while j < 3
        invariant
            j <= 3,
            is_board(table@),
            t == table_view(table@),
            forall|k: int| 0 <= k < 3 ==> line_mark(#[trigger] t[k][0], t[k][1], t[k][2]) is None,
            forall|k: int| 0 <= k < j ==> line_mark(#[trigger] t[0][k], t[1][k], t[2][k]) is None,
        decreases 3 - j,
    {
        assert(table@[0]@.len() == 3 && table@[1]@.len() == 3 && table@[2]@.len() == 3);
        match equal3(&table[0][j], &table[1][j], &table[2][j]) {
            Some(mark) => {
                return Some(mark);
            },
            None => {},
        }
        j = j + 1;
    }
    assert(table@[0]@.len() == 3 && table@[1]@.len() == 3 && table@[2]@.len() == 3);
    let main = equal3(&table[0][0], &table[1][1], &table[2][2]);
    let anti = equal3(&table[2][0], &table[1][1], &table[0][2]);
    match (main, anti) {
        (_, Some(mark)) => Some(mark),
        (Some(mark), _) => Some(mark),
        _ => None,
    }
}

} // verus!
