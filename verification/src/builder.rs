//! The description of a game to be built: who stands where, where the ball is, and the
//! stage the game starts at.

use vstd::prelude::*;
use vstd::string::StrSliceExecFns;

use crate::board::BoardDims;
use crate::model::{Coord, Position};

verus! {

/// The stage a built game starts at.
#[derive(Debug, Clone, Copy, PartialEq, Eq, Structural, Hash)]
pub enum BuilderState {
    Turn { turn: u8 },
    Setup { turn: u8 },
    Kickoff { turn: u8 },
    CoinToss,
}

/// A game to be built: the squares of the home and away players, the ball's square, the
/// stage to start at, and the board when it is not the default one.
pub struct GameStateBuilder {
    pub home_players: Vec<Position>,
    pub away_players: Vec<Position>,
    pub ball_pos: Option<Position>,
    pub state: BuilderState,
    pub board_dims: Option<BoardDims>,
}

impl GameStateBuilder {
    /// Nobody on the pitch, no ball, the first turn.
    pub fn new() -> (r: GameStateBuilder)
        ensures
            r.home_players@.len() == 0,
            r.away_players@.len() == 0,
            r.ball_pos is None,
            r.state == (BuilderState::Turn { turn: 1 }),
            r.board_dims is None,
    {
        GameStateBuilder {
            home_players: Vec::new(),
            away_players: Vec::new(),
            ball_pos: None,
            state: BuilderState::Turn { turn: 1 },
            board_dims: None,
        }
    }

    /// Build on `board_dims` in place of the default board.
    pub fn with_board_dims(&mut self, board_dims: BoardDims) -> (r: &mut GameStateBuilder)
        ensures
            r.board_dims == Some(board_dims),
            r.home_players@ == old(self).home_players@,
            r.away_players@ == old(self).away_players@,
            r.ball_pos == old(self).ball_pos,
            r.state == old(self).state,
            *final(self) == *final(r),
    {
        self.board_dims = Some(board_dims);
        self
    }
}

/// How far reading a board drawing has got: the square of the next character, the home and
/// away players and the ball read so far, and whether every character read so far stood on
/// the physical pitch.
pub struct DrawingRead {
    pub x: int,
    pub y: int,
    pub home: Seq<Position>,
    pub away: Seq<Position>,
    pub ball: Option<Position>,
    pub on_pitch: bool,
}

/// Reading the character `c` of a drawing whose lines start in column `start_x`: `h` and `a`
/// are a home and an away player, `H` and `A` one holding the ball, a newline starts the
/// next line, and anything else is an empty square.
pub open spec fn read_char(start_x: int, st: DrawingRead, c: char) -> DrawingRead {
    let here = Position { x: st.x as i8, y: st.y as i8 };
    let home = if c == 'h' || c == 'H' {
        st.home.push(here)
    } else {
        st.home
    };
    let away = if c == 'a' || c == 'A' {
        st.away.push(here)
    } else {
        st.away
    };
    let ball = if c == 'H' || c == 'A' {
        Some(here)
    } else {
        st.ball
    };
    let on_pitch = st.on_pitch && !here.spec_is_out();
    if c == '\n' {
        DrawingRead { x: start_x, y: st.y + 1, home, away, ball, on_pitch }
    } else {
        DrawingRead { x: st.x + 1, y: st.y, home, away, ball, on_pitch }
    }
}

/// Reading the drawing `cs` from its top left square `start`.
pub open spec fn read_drawing(start: Position, cs: Seq<char>) -> DrawingRead
    decreases cs.len(),
{
    if cs.len() == 0 {
        DrawingRead {
            x: start.x as int,
            y: start.y as int,
            home: Seq::empty(),
            away: Seq::empty(),
            ball: None,
            on_pitch: true,
        }
    } else {
        read_char(start.x as int, read_drawing(start, cs.drop_last()), cs.last())
    }
}

/// A drawing that stays on the pitch does so from its first character on.
proof fn lemma_on_pitch_prefix(start: Position, cs: Seq<char>, i: int)
    requires
        0 <= i <= cs.len(),
        read_drawing(start, cs).on_pitch,
    ensures
        read_drawing(start, cs.take(i)).on_pitch,
    decreases cs.len(),
{
    if i < cs.len() {
        assert(cs.drop_last() =~= cs.take(cs.len() - 1));
        lemma_on_pitch_prefix(start, cs.drop_last(), i);
        assert(cs.drop_last().take(i) =~= cs.take(i));
    } else {
        assert(cs.take(i) =~= cs);
    }
}

impl GameStateBuilder {
    /// Add the players and ball of a drawing whose top left square is `start_pos`: `h` and
    /// `a` are a home and an away player, `H` and `A` one holding the ball, each line of the
    /// drawing is the next row, and any other character is an empty square. Every character
    /// must stand on the physical pitch.
    pub fn add_str(&mut self, start_pos: Position, s: &str) -> (r: &mut GameStateBuilder)
        requires
            read_drawing(start_pos, s@).on_pitch,
        ensures
            ({
                let d = read_drawing(start_pos, s@);
                &&& r.home_players@ == old(self).home_players@ + d.home
                &&& r.away_players@ == old(self).away_players@ + d.away
                &&& r.ball_pos == if d.ball is Some {
                    d.ball
                } else {
                    old(self).ball_pos
                }
            }),
            r.state == old(self).state,
            r.board_dims == old(self).board_dims,
            *final(self) == *final(r),
    {
        let ghost h0 = self.home_players@;
        let ghost a0 = self.away_players@;
        let ghost b0 = self.ball_pos;
        let mut pos = start_pos;
        let start_x = pos.x;
        let n = s.unicode_len();
        let mut i: usize = 0;
        while i < n
            invariant
                n == s@.len(),
                i <= n,
                read_drawing(start_pos, s@).on_pitch,
                start_x == start_pos.x,
                ({
                    let d = read_drawing(start_pos, s@.take(i as int));
                    &&& d.x == pos.x
                    &&& d.y == pos.y
                    &&& self.home_players@ == h0 + d.home
                    &&& self.away_players@ == a0 + d.away
                    &&& self.ball_pos == if d.ball is Some {
                        d.ball
                    } else {
                        b0
                    }
                }),
                self.state == old(self).state,
                self.board_dims == old(self).board_dims,
            decreases n - i,
        {
            let c = s.get_char(i);
            proof {
                lemma_on_pitch_prefix(start_pos, s@, i + 1);
                assert(s@.take(i + 1).drop_last() =~= s@.take(i as int));
                assert(s@.take(i + 1).last() == c);
            }
            if c == 'a' {
                self.away_players.push(pos);
            } else if c == 'h' {
                self.home_players.push(pos);
            } else if c == 'H' {
                self.home_players.push(pos);
                self.ball_pos = Some(pos);
            } else if c == 'A' {
                self.away_players.push(pos);
                self.ball_pos = Some(pos);
            }
            if c == '\n' {
                pos.y = pos.y + 1;
                pos.x = start_x;
            } else {
                pos.x = pos.x + 1;
            }
            proof {
                let d = read_drawing(start_pos, s@.take(i as int));
                assert(self.home_players@ =~= h0 + read_drawing(start_pos, s@.take(i + 1)).home);
                assert(self.away_players@ =~= a0 + read_drawing(start_pos, s@.take(i + 1)).away);
            }
            i = i + 1;
        }
        proof {
            assert(s@.take(n as int) =~= s@);
        }
        self
    }
}

/// The squares with the given coordinates.
pub open spec fn squares_of(xys: Seq<(Coord, Coord)>) -> Seq<Position> {
    xys.map_values(|xy: (Coord, Coord)| Position { x: xy.0, y: xy.1 })
}

impl GameStateBuilder {
    /// Add a home player on `position`.
    pub fn add_home_player(&mut self, position: Position) -> (r: &mut GameStateBuilder)
        ensures
            r.home_players@ == old(self).home_players@.push(position),
            r.away_players@ == old(self).away_players@,
            r.ball_pos == old(self).ball_pos,
            r.state == old(self).state,
            r.board_dims == old(self).board_dims,
            *final(self) == *final(r),
    {
        self.home_players.push(position);
        self
    }

    /// Start the game at `state`.
    pub fn set_state(&mut self, state: BuilderState) -> (r: &mut GameStateBuilder)
        ensures
            r.home_players@ == old(self).home_players@,
            r.away_players@ == old(self).away_players@,
            r.ball_pos == old(self).ball_pos,
            r.state == state,
            r.board_dims == old(self).board_dims,
            *final(self) == *final(r),
    {
        self.state = state;
        self
    }

    /// Add an away player on `position`.
    pub fn add_away_player(&mut self, position: Position) -> (r: &mut GameStateBuilder)
        ensures
            r.home_players@ == old(self).home_players@,
            r.away_players@ == old(self).away_players@.push(position),
            r.ball_pos == old(self).ball_pos,
            r.state == old(self).state,
            r.board_dims == old(self).board_dims,
            *final(self) == *final(r),
    {
        self.away_players.push(position);
        self
    }

    /// Add a home player on each of the squares `players`, in order.
    pub fn add_home_players(&mut self, players: &[(Coord, Coord)]) -> (r: &mut GameStateBuilder)
        ensures
            r.home_players@ == old(self).home_players@ + squares_of(players@),
            r.away_players@ == old(self).away_players@,
            r.ball_pos == old(self).ball_pos,
            r.state == old(self).state,
            r.board_dims == old(self).board_dims,
            *final(self) == *final(r),
    {
        let ghost before = self.home_players@;
        let mut i: usize = 0;
        while i < players.len()
            invariant
                i <= players@.len(),
                self.home_players@ == before + squares_of(players@.take(i as int)),
                self.away_players@ == old(self).away_players@,
                self.ball_pos == old(self).ball_pos,
                self.state == old(self).state,
                self.board_dims == old(self).board_dims,
            decreases players@.len() - i,
        {
            let (x, y) = players[i];
            self.home_players.push(Position::new((x, y)));
            proof {
                assert(players@.take(i + 1).drop_last() =~= players@.take(i as int));
            }
            i = i + 1;
        }
        proof {
            assert(players@.take(players@.len() as int) =~= players@);
        }
        self
    }

    /// Add an away player on each of the squares `players`, in order.
    pub fn add_away_players(&mut self, players: &[(Coord, Coord)]) -> (r: &mut GameStateBuilder)
        ensures
            r.home_players@ == old(self).home_players@,
            r.away_players@ == old(self).away_players@ + squares_of(players@),
            r.ball_pos == old(self).ball_pos,
            r.state == old(self).state,
            r.board_dims == old(self).board_dims,
            *final(self) == *final(r),
    {
        let ghost before = self.away_players@;
        let mut i: usize = 0;
        while i < players.len()
            invariant
                i <= players@.len(),
                self.away_players@ == before + squares_of(players@.take(i as int)),
                self.home_players@ == old(self).home_players@,
                self.ball_pos == old(self).ball_pos,
                self.state == old(self).state,
                self.board_dims == old(self).board_dims,
            decreases players@.len() - i,
        {
            let (x, y) = players[i];
            self.away_players.push(Position::new((x, y)));
            proof {
                assert(players@.take(i + 1).drop_last() =~= players@.take(i as int));
            }
            i = i + 1;
        }
        proof {
            assert(players@.take(players@.len() as int) =~= players@);
        }
        self
    }

    /// Put the ball on the square `xy`.
    pub fn add_ball(&mut self, xy: (Coord, Coord)) -> (r: &mut GameStateBuilder)
        ensures
            r.home_players@ == old(self).home_players@,
            r.away_players@ == old(self).away_players@,
            r.ball_pos == Some(Position { x: xy.0, y: xy.1 }),
            r.state == old(self).state,
            r.board_dims == old(self).board_dims,
            *final(self) == *final(r),
    {
        self.ball_pos = Some(Position::new((xy.0, xy.1)));
        self
    }

    /// Put the ball on `position`.
    pub fn add_ball_pos(&mut self, position: Position) -> (r: &mut GameStateBuilder)
        ensures
            r.home_players@ == old(self).home_players@,
            r.away_players@ == old(self).away_players@,
            r.ball_pos == Some(position),
            r.state == old(self).state,
            r.board_dims == old(self).board_dims,
            *final(self) == *final(r),
    {
        self.ball_pos = Some(position);
        self
    }
}

} // verus!
