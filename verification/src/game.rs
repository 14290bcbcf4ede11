//! The board game that the members of a session play.

use crate::random::random_text;
use vstd::prelude::*;
use vstd::string::StrSliceExecFns;

verus! {

/// The name of a player.
pub type ID = &'static str;

/// The letter that a new board shows on every tile.
pub const BLANK: char = 'a';

/// The width and the height of the board of a new game.
pub const BOARD_SIZE: usize = 6;

/// A place on the board: a column and a row, counted from zero.
#[derive(Debug, Clone, Copy, PartialEq, Eq)]
pub struct Pos(pub usize, pub usize);

/// What a player can do to the board.
#[derive(Debug, Clone, Copy, PartialEq, Eq)]
pub enum Action {
    /// Put a letter drawn at random on a tile.
    Randomize(Pos),
    /// Let two tiles change places.
    Swap { p1: Pos, p2: Pos },
    /// Put the letter `next` on a tile.
    Exchange { pos: Pos, next: char },
}

/// The state of a game as a mathematical value.
pub struct GameStateView {
    /// The health of the players' team.
    pub team_health: u32,
    /// The health of the enemy.
    pub enemy_health: u32,
    /// The letters on the board, column by column.
    pub board: Seq<Seq<char>>,
}

impl GameStateView {
    /// The number of columns.
    pub open spec fn width(self) -> nat {
        self.board.len()
    }

    /// The number of rows, which a board without columns does not have.
    pub open spec fn height(self) -> nat {
        if self.board.len() > 0 {
            self.board[0].len()
        } else {
            0
        }
    }

    /// Tells whether the board has a tile at `pos`.
    pub open spec fn on_board(self, pos: Pos) -> bool {
        pos.0 < self.width() && pos.1 < self.height()
    }

    /// The letter on the tile at `pos`.
    pub open spec fn letter(self, pos: Pos) -> char
        recommends
            self.on_board(pos),
    {
        self.board[pos.0 as int][pos.1 as int]
    }

    /// The state with `letter` on the tile at `pos`.
    pub open spec fn with_letter(self, pos: Pos, letter: char) -> Self
        recommends
            self.on_board(pos),
    {
        GameStateView {
            board: self.board.update(
                pos.0 as int,
                self.board[pos.0 as int].update(pos.1 as int, letter),
            ),
            ..self
        }
    }
}

/// Every column of `board` is as long as the first.
pub open spec fn rectangular(board: Seq<Seq<char>>) -> bool {
    forall|x: int| 0 <= x < board.len() ==> (#[trigger] board[x]).len() == board[0].len()
}

/// Putting a letter on a tile of a rectangular board changes that tile and
/// nothing else: the board keeps its shape, the tile shows the letter, and
/// every other tile shows what it showed.
pub proof fn lemma_with_letter(state: GameStateView, pos: Pos, letter: char, other: Pos)
    requires
        rectangular(state.board),
        state.on_board(pos),
    ensures
        rectangular(state.with_letter(pos, letter).board),
        state.with_letter(pos, letter).width() == state.width(),
        state.with_letter(pos, letter).height() == state.height(),
        state.with_letter(pos, letter).on_board(other) == state.on_board(other),
        state.with_letter(pos, letter).letter(pos) == letter,
        state.on_board(other) && other != pos ==> state.with_letter(pos, letter).letter(other)
            == state.letter(other),
        state.with_letter(pos, letter).team_health == state.team_health,
        state.with_letter(pos, letter).enemy_health == state.enemy_health,
{
    assert(state.board[pos.0 as int].len() == state.board[0].len());
    if state.on_board(other) {
        assert(state.board[other.0 as int].len() == state.board[0].len());
    }
}

/// The letters of each column of `board`.
pub open spec fn columns(board: Seq<Vec<char>>) -> Seq<Seq<char>> {
    board.map_values(|column: Vec<char>| column@)
}

/// A board of `width` columns and `height` rows with the blank letter on
/// every tile.
pub open spec fn blank_board(width: nat, height: nat) -> Seq<Seq<char>> {
    Seq::new(width, |x: int| blank_column(height))
}

/// A column of `height` blank tiles.
pub open spec fn blank_column(height: nat) -> Seq<char> {
    Seq::new(height, |y: int| BLANK)
}

/// The tile at column `x` and row `y` of `board`. What the caller writes
/// through the reference is the letter on that tile afterwards.
fn tile_mut(board: &mut Vec<Vec<char>>, x: usize, y: usize) -> (letter: &mut char)
    requires
        x < old(board)@.len(),
        y < old(board)@[x as int]@.len(),
    ensures
        *letter == old(board)@[x as int]@[y as int],
        columns(final(board)@) == columns(old(board)@).update(
            x as int,
            old(board)@[x as int]@.update(y as int, *final(letter)),
        ),
    no_unwind
{
    let ghost before = board@;
    let column = &mut board[x];
    let ghost held = *final(column);
    let letter = &mut column[y];
    proof {
        assert(columns(before.update(x as int, held)) =~= columns(before).update(
            x as int,
            before[x as int]@.update(y as int, *final(letter)),
        ));
    }
    letter
}

/// The healths of the two sides and the letters on the board.
#[derive(Debug)]
pub struct GameState {
    team_health: u32,
    enemy_health: u32,
    board: Vec<Vec<char>>,
}

impl View for GameState {
    type V = GameStateView;

    closed spec fn view(&self) -> GameStateView {
        GameStateView {
            team_health: self.team_health,
            enemy_health: self.enemy_health,
            board: columns(self.board@),
        }
    }
}

impl GameState {
    /// The board is a rectangle.
    #[verifier::type_invariant]
    pub closed spec fn wf(&self) -> bool {
        rectangular(columns(self.board@))
    }

    /// A state in which both sides have no health and the board has `width`
    /// columns and `height` rows of blank tiles.
    pub fn new(width: usize, height: usize) -> (s: Self)
        ensures
            s@ == (GameStateView {
                team_health: 0,
                enemy_health: 0,
                board: blank_board(width as nat, height as nat),
            }),
    {
        let mut board: Vec<Vec<char>> = Vec::new();
        let mut x: usize = 0;
        while x < width
            invariant
                x <= width,
                board@.len() == x,
                forall|i: int| 0 <= i < x ==> (#[trigger] board@[i])@ == blank_column(height as nat),
            decreases width - x,
        {
            let mut column: Vec<char> = Vec::new();
            let mut y: usize = 0;
            while y < height
                invariant
                    y <= height,
                    column@.len() == y,
                    forall|j: int| 0 <= j < y ==> #[trigger] column@[j] == BLANK,
                decreases height - y,
            {
                column.push(BLANK);
                y = y + 1;
            }
            assert(column@ =~= blank_column(height as nat));
            board.push(column);
            x = x + 1;
        }
        assert(columns(board@) =~= blank_board(width as nat, height as nat));
        Self { team_health: 0, enemy_health: 0, board }
    }

    /// The width and the height of the board, which is a rectangle: every
    /// column has as many rows as the first.
    pub fn get_dim(&self) -> (dim: (usize, usize))
        ensures
            dim.0 == self@.width(),
            dim.1 == self@.height(),
            rectangular(self@.board),
    {
        proof {
            use_type_invariant(self);
        }
        if self.board.len() > 0 {
            (self.board.len(), self.board[0].len())
        } else {
            (0, 0)
        }
    }

    /// The tile at column `x` and row `y`, if the board has one there. What
    /// the caller writes through the reference is the letter on that tile
    /// afterwards; nothing else changes.
    pub fn board_at(&mut self, x: usize, y: usize) -> (tile: Option<&mut char>)
        ensures
            match tile {
                Some(letter) => {
                    &&& old(self)@.on_board(Pos(x, y))
                    &&& *letter == old(self)@.letter(Pos(x, y))
                    &&& final(self)@ == old(self)@.with_letter(Pos(x, y), *final(letter))
                },
                None => !old(self)@.on_board(Pos(x, y)) && final(self)@ == old(self)@,
            },
            rectangular(old(self)@.board),
    {
        proof {
            use_type_invariant(&*self);
        }
        let (width, height) = self.get_dim();
        if x < width && y < height {
            let ghost before = columns(self.board@);
            assert(before[x as int].len() == before[0].len());
            let letter = tile_mut(&mut self.board, x, y);
            proof {
                let after = before.update(
                    x as int,
                    before[x as int].update(y as int, *final(letter)),
                );
                assert(rectangular(after));
            }
            Some(letter)
        } else {
            None
        }
    }

    /// The letter on the tile at column `x` and row `y`, if the board has one
    /// there.
    pub fn letter_at(&self, x: usize, y: usize) -> (letter: Option<char>)
        ensures
            letter == if self@.on_board(Pos(x, y)) {
                Some(self@.letter(Pos(x, y)))
            } else {
                None::<char>
            },
            rectangular(self@.board),
    {
        proof {
            use_type_invariant(self);
        }
        let (width, height) = self.get_dim();
        if x < width && y < height {
            assert(columns(self.board@)[x as int].len() == columns(self.board@)[0].len());
            Some(self.board[x][y])
        } else {
            None
        }
    }

    /// Gives `amount` of health to the team, up to what a `u32` holds.
    fn heal(&mut self, amount: u32)
        ensures
            final(self)@ == after_effect(old(self)@, Effects::Heal(amount)),
    {
        proof {
            use_type_invariant(&*self);
        }
        self.team_health = self.team_health.saturating_add(amount);
    }

    /// Takes `amount` of health from the enemy, down to zero.
    fn damage(&mut self, amount: u32)
        ensures
            final(self)@ == after_effect(old(self)@, Effects::Damage(amount)),
    {
        proof {
            use_type_invariant(&*self);
        }
        self.enemy_health = self.enemy_health.saturating_sub(amount);
    }

    /// The health of the players' team.
    pub fn team_health(&self) -> (health: u32)
        ensures
            health == self@.team_health,
    {
        self.team_health
    }

    /// The health of the enemy.
    pub fn enemy_health(&self) -> (health: u32)
        ensures
            health == self@.enemy_health,
    {
        self.enemy_health
    }
}

impl Default for GameState {
    /// The state in which a game starts.
    fn default() -> (s: Self)
        ensures
            s@ == initial_state(),
    {
        Self::new(BOARD_SIZE, BOARD_SIZE)
    }
}

/// The state in which a game starts: no health on either side and a blank
/// board of `BOARD_SIZE` columns and rows.
pub open spec fn initial_state() -> GameStateView {
    GameStateView {
        team_health: 0,
        enemy_health: 0,
        board: blank_board(BOARD_SIZE as nat, BOARD_SIZE as nat),
    }
}

/// What a word does once it is accepted.
#[derive(Debug, Clone, Copy, PartialEq, Eq)]
pub enum Effects {
    /// Takes health from the enemy.
    Damage(u32),
    /// Gives health to the team.
    Heal(u32),
}

/// The health that an accepted word takes from the enemy.
pub const WORD_DAMAGE: u32 = 2;

/// The health that an accepted word gives to the team.
pub const WORD_HEAL: u32 = 4;

/// Tells whether `letter` is one that a `Randomize` can draw: a small letter
/// of the Latin alphabet.
pub open spec fn is_tile_letter(letter: char) -> bool {
    'a' <= letter <= 'z'
}

/// Tells whether `action` can be carried out: a swap needs both of its tiles
/// on the board.
pub open spec fn action_accepted(state: GameStateView, action: Action) -> bool {
    match action {
        Action::Swap { p1, p2 } => state.on_board(p1) && state.on_board(p2),
        _ => true,
    }
}

/// The state after `action`, where `drawn` is the letter that a `Randomize`
/// draws. A tile that is not on the board is left out of it: an exchange or
/// randomize there changes nothing, and neither does a swap.
pub open spec fn after_action(state: GameStateView, action: Action, drawn: char) -> GameStateView {
    match action {
        Action::Swap { p1, p2 } => if state.on_board(p1) && state.on_board(p2) {
            state.with_letter(p1, state.letter(p2)).with_letter(p2, state.letter(p1))
        } else {
            state
        },
        Action::Exchange { pos, next } => if state.on_board(pos) {
            state.with_letter(pos, next)
        } else {
            state
        },
        Action::Randomize(pos) => if state.on_board(pos) {
            state.with_letter(pos, drawn)
        } else {
            state
        },
    }
}

/// The letters under those of `tiles` that are on the board, in their order.
pub open spec fn word_at(state: GameStateView, tiles: Seq<Pos>) -> Seq<char>
    decreases tiles.len(),
{
    if tiles.len() == 0 {
        Seq::empty()
    } else {
        let before = word_at(state, tiles.drop_last());
        if state.on_board(tiles.last()) {
            before.push(state.letter(tiles.last()))
        } else {
            before
        }
    }
}

/// Tells whether `word` counts: it must have a letter.
pub open spec fn word_accepted(word: Seq<char>) -> bool {
    word.len() > 0
}

/// What `word` does, whatever its letters: it damages the enemy, then heals
/// the team.
pub open spec fn word_effects(word: Seq<char>) -> Seq<Effects> {
    seq![Effects::Damage(WORD_DAMAGE), Effects::Heal(WORD_HEAL)]
}

/// The state after `effect`. Health neither falls below zero nor rises above
/// what a `u32` holds.
pub open spec fn after_effect(state: GameStateView, effect: Effects) -> GameStateView {
    match effect {
        Effects::Heal(heal) => GameStateView {
            team_health: if state.team_health + heal > u32::MAX {
                u32::MAX
            } else {
                (state.team_health + heal) as u32
            },
            ..state
        },
        Effects::Damage(damage) => GameStateView {
            enemy_health: if state.enemy_health < damage {
                0
            } else {
                (state.enemy_health - damage) as u32
            },
            ..state
        },
    }
}

/// The state after each of `effects` in turn.
pub open spec fn after_effects(state: GameStateView, effects: Seq<Effects>) -> GameStateView
    decreases effects.len(),
{
    if effects.len() == 0 {
        state
    } else {
        after_effect(after_effects(state, effects.drop_last()), effects.last())
    }
}

/// Taken on trust from the documentation of the standard library:
/// `String::push` appends the character to the end of the string.
pub assume_specification[ String::push ](s: &mut String, c: char)
    ensures
        final(s)@ == old(s)@.push(c),
;

/// A game: what a session carries for its members.
#[derive(Debug)]
pub struct Game {
    state: GameState,
}

impl View for Game {
    type V = GameStateView;

    closed spec fn view(&self) -> GameStateView {
        self.state@
    }
}

impl Default for Game {
    /// A game at its start.
    fn default() -> (g: Self)
        ensures
            g@ == initial_state(),
    {
        Game { state: GameState::default() }
    }
}

impl Game {
    /// A game at its start.
    pub fn new() -> (g: Self)
        ensures
            g@ == initial_state(),
    {
        Self::default()
    }

    /// The state of the game, whose board is a rectangle.
    pub fn state(&self) -> (s: &GameState)
        ensures
            s@ == self@,
            rectangular(self@.board),
    {
        proof {
            use_type_invariant(&self.state);
        }
        &self.state
    }

    /// Puts `letter` on the tile at `pos` if the board has one there.
    fn place(&mut self, pos: Pos, letter: char)
        ensures
            final(self)@ == if old(self)@.on_board(pos) {
                old(self)@.with_letter(pos, letter)
            } else {
                old(self)@
            },
    {
        match self.state.board_at(pos.0, pos.1) {
            Some(tile) => {
                *tile = letter;
            },
            None => {},
        }
    }

    /// Carries out `action`, with `drawn` as the letter that a `Randomize`
    /// puts down. A swap of a tile that is not on the board is refused with
    /// `None`.
    pub fn apply_action(&mut self, action: Action, drawn: char) -> (done: Option<()>)
        ensures
            done is Some <==> action_accepted(old(self)@, action),
            final(self)@ == after_action(old(self)@, action, drawn),
            rectangular(old(self)@.board),
    {
        proof {
            use_type_invariant(&self.state);
        }
        match action {
            Action::Swap { p1, p2 } => {
                let first = match self.state.letter_at(p1.0, p1.1) {
                    Some(letter) => letter,
                    None => {
                        return None;
                    },
                };
                let second = match self.state.letter_at(p2.0, p2.1) {
                    Some(letter) => letter,
                    None => {
                        return None;
                    },
                };
                self.place(p1, second);
                self.place(p2, first);
            },
            Action::Exchange { pos, next } => {
                self.place(pos, next);
            },
            Action::Randomize(pos) => {
                self.place(pos, drawn);
            },
        }
        Some(())
    }

    /// Draws a small letter of the Latin alphabet at random.
    fn draw_letter() -> (letter: char)
        ensures
            is_tile_letter(letter),
    {
        let alphabet: [char; 26] = [
            'a', 'b', 'c', 'd', 'e', 'f', 'g', 'h', 'i', 'j', 'k', 'l', 'm', 'n', 'o', 'p', 'q',
            'r', 's', 't', 'u', 'v', 'w', 'x', 'y', 'z',
        ];
        let text = random_text(alphabet.as_slice(), 1);
        let letter = text.as_str().get_char(0);
        proof {
            let at = alphabet@.index_of(letter);
            assert(alphabet@[at] == letter);
        }
        letter
    }

    /// Carries out `action` for the player `_id`. A `Randomize` of a tile on
    /// the board draws a small letter at random.
    pub fn player_action(&mut self, _id: ID, action: Action) -> (done: Option<()>)
        ensures
            done is Some <==> action_accepted(old(self)@, action),
            exists|drawn: char|
                is_tile_letter(drawn) && final(self)@ == after_action(old(self)@, action, drawn),
            rectangular(old(self)@.board),
    {
        let drawn = match action {
            Action::Randomize(pos) => {
                if self.state.letter_at(pos.0, pos.1).is_some() {
                    Self::draw_letter()
                } else {
                    BLANK
                }
            },
            _ => BLANK,
        };
        let done = self.apply_action(action, drawn);
        assert(is_tile_letter(drawn) && self@ == after_action(old(self)@, action, drawn));
        done
    }

    /// The word that `tiles` spell: the letters under those of them that are
    /// on the board.
    pub fn assemble_word(&self, tiles: &[Pos]) -> (word: String)
        ensures
            word@ == word_at(self@, tiles@),
    {
        let mut word = String::new();
        let mut i: usize = 0;
        while i < tiles.len()
            invariant
                i <= tiles@.len(),
                word@ == word_at(self@, tiles@.take(i as int)),
            decreases tiles@.len() - i,
        {
            proof {
                assert(tiles@.take(i + 1).drop_last() =~= tiles@.take(i as int));
                assert(tiles@.take(i + 1).last() == tiles@[i as int]);
            }
            match self.state.letter_at(tiles[i].0, tiles[i].1) {
                Some(letter) => {
                    word.push(letter);
                },
                None => {},
            }
            i = i + 1;
        }
        assert(tiles@.take(tiles@.len() as int) =~= tiles@);
        word
    }

    /// What `word` does once it is accepted.
    pub fn extract_word_effects(&self, word: &str) -> (effects: Vec<Effects>)
        ensures
            effects@ == word_effects(word@),
    {
        let mut effects: Vec<Effects> = Vec::new();
        effects.push(Effects::Damage(WORD_DAMAGE));
        effects.push(Effects::Heal(WORD_HEAL));
        assert(effects@ =~= word_effects(word@));
        effects
    }

    /// Accepts a word that has a letter and refuses the empty one.
    pub fn check_word(&self, word: &str) -> (r: Result<(), ()>)
        ensures
            r is Ok <==> word_accepted(word@),
    {
        if word.is_empty() {
            Err(())
        } else {
            Ok(())
        }
    }

    /// Submits the word that `tiles` spell. A word that is accepted takes
    /// effect; one that is refused changes nothing.
    pub fn submit_word(&mut self, tiles: &[Pos]) -> (r: Result<(), ()>)
        ensures
            r is Ok <==> word_accepted(word_at(old(self)@, tiles@)),
            final(self)@ == if word_accepted(word_at(old(self)@, tiles@)) {
                after_effects(old(self)@, word_effects(word_at(old(self)@, tiles@)))
            } else {
                old(self)@
            },
    {
        let word = self.assemble_word(tiles);
        if self.check_word(word.as_str()).is_err() {
            return Err(());
        }
        let effects = self.extract_word_effects(word.as_str());
        let mut i: usize = 0;
        while i < effects.len()
            invariant
                i <= effects@.len(),
                self@ == after_effects(old(self)@, effects@.take(i as int)),
            decreases effects@.len() - i,
        {
            proof {
                assert(effects@.take(i + 1).drop_last() =~= effects@.take(i as int));
                assert(effects@.take(i + 1).last() == effects@[i as int]);
            }
            match effects[i] {
                Effects::Heal(heal) => {
                    self.state.heal(heal);
                },
                Effects::Damage(damage) => {
                    self.state.damage(damage);
                },
            }
            i = i + 1;
        }
        assert(effects@.take(effects@.len() as int) =~= effects@);
        Ok(())
    }
}

} // verus!
