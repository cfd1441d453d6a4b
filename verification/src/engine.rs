//! The engine behind the line protocol: what each command does to the position, and
//! what it reports.

use vstd::prelude::*;
use crate::board::Board;
use crate::error::EngineError;
use crate::fen::parse_fen;
use crate::moves::Move;
use crate::position::Position;
use crate::uci::{CommandModel, UciCommand};
use crate::utils::{capped, perft, perft_divide, perft_nodes};

verus! {

/// What the engine reports.
#[derive(Debug, Clone)]
pub enum EngineEvent {
    EndGame,
    Gameover,
    /// The leaves counted to `depth`, in all and below each move at the root.
    PerftResult { depth: u32, count: u64, root_nodes: Vec<(Move, u64)> },
    /// A line for the reader.
    Debug(String),
}

/// What the engine is told.
#[derive(Debug, Clone)]
pub enum EngineControl {
    UciCommand(UciCommand),
    Terminate,
    Perft(u32),
}

/// The engine: a board, whether a position has been set on it, and whether the
/// engine has been told to end.
pub struct UciEngine {
    pub board: Board,
    pub stop: bool,
    pub is_position_set: bool,
}

/// What an event says, with texts and lists as sequences.
pub enum EventModel {
    EndGame,
    Gameover,
    PerftResult { depth: u32, count: u64, root_nodes: Seq<(Move, u64)> },
    Debug(Seq<char>),
}

/// The state of the engine as the commands see it.
pub struct EngineModel {
    pub position: Position,
    pub is_position_set: bool,
    pub stop: bool,
}

/// The position that a game starts from, in text.
pub open spec fn start_fen() -> Seq<char> {
    "rnbqkbnr/pppppppp/8/8/8/8/PPPPPPPP/RNBQKBNR w KQkq - 0 1"@
}

/// What the engine says when it is asked to count before a position is set.
pub open spec fn not_set_text() -> Seq<char> {
    "position not set"@
}

/// The state after the command `cmd`, and what the engine reports or the error it
/// ends with. A perft counts on the position that is set and leaves it as it is. A
/// position is read, from the start of a game if no text comes with it, and the
/// moves are made on it; if the text is not a position, nothing changes; if a move
/// is not legal, the position is the one that was read, with no move made.
pub open spec fn command_outcome(m: EngineModel, cmd: CommandModel) -> (
    EngineModel,
    Result<Seq<EventModel>, EngineError>,
) {
    match cmd {
        CommandModel::Perft(ply) => if !m.is_position_set {
            (m, Ok(seq![EventModel::Debug(not_set_text())]))
        } else {
            (
                m,
                Ok(
                    seq![
                        EventModel::PerftResult {
                            depth: ply,
                            count: capped(perft_nodes(m.position, ply as nat)),
                            root_nodes: perft_divide(m.position, ply as nat),
                        },
                    ],
                ),
            )
        },
        CommandModel::Position { fen, moves } => {
            let text = match fen {
                Some(t) => t,
                None => start_fen(),
            };
            match parse_fen(text) {
                Err(f) => (m, Err(EngineError::ParsePosition(f))),
                Ok(p) => match p.replay(moves, 0) {
                    Ok(q) => (
                        EngineModel { position: q, is_position_set: true, ..m },
                        Ok(Seq::empty()),
                    ),
                    Err(i) => (
                        EngineModel { position: p, is_position_set: true, ..m },
                        Err(EngineError::IllegalMove(i as usize)),
                    ),
                },
            }
        },
        _ => (m, Ok(Seq::empty())),
    }
}

impl View for EngineEvent {
    type V = EventModel;

    open spec fn view(&self) -> EventModel {
        match self {
            EngineEvent::EndGame => EventModel::EndGame,
            EngineEvent::Gameover => EventModel::Gameover,
            EngineEvent::PerftResult { depth, count, root_nodes } => EventModel::PerftResult {
                depth: *depth,
                count: *count,
                root_nodes: root_nodes@,
            },
            EngineEvent::Debug(text) => EventModel::Debug(text@),
        }
    }
}

/// The views of a list of events.
pub open spec fn events(v: Seq<EngineEvent>) -> Seq<EventModel> {
    v.map_values(|e: EngineEvent| e@)
}

impl View for UciEngine {
    type V = EngineModel;

    open spec fn view(&self) -> EngineModel {
        EngineModel {
            position: self.board@,
            is_position_set: self.is_position_set,
            stop: self.stop,
        }
    }
}

impl UciEngine {
    /// The board is in order, and the position on it, once one is set, is one that a
    /// game can reach.
    pub open spec fn wf(&self) -> bool {
        self.board.wf() && (self.is_position_set ==> self.board@.valid())
    }

    /// An engine with no position set.
    pub fn new() -> (r: Self)
        ensures
            r.wf(),
            !r.is_position_set,
            !r.stop,
    {
        Self { board: Board::new(), stop: false, is_position_set: false }
    }

    /// The report that carries the line `m` to the reader.
    pub fn print(&self, m: &str) -> (r: EngineEvent)
        ensures
            r@ == EventModel::Debug(m@),
    {
        EngineEvent::Debug(m.to_owned())
    }

    /// Does what the command `cmd` asks for, and hands back what is to be reported.
    pub fn handle_command(&mut self, cmd: UciCommand) -> (r: Result<Vec<EngineEvent>, EngineError>)
        requires
            old(self).wf(),
        ensures
            final(self).wf(),
            final(self)@ == command_outcome(old(self)@, cmd@).0,
            match r {
                Ok(list) => command_outcome(old(self)@, cmd@).1 == Ok::<
                    Seq<EventModel>,
                    EngineError,
                >(events(list@)),
                Err(e) => command_outcome(old(self)@, cmd@).1 == Err::<
                    Seq<EventModel>,
                    EngineError,
                >(e),
            },
    {
        let mut out: Vec<EngineEvent> = Vec::new();
        match cmd {
            UciCommand::Perft(ply) => {
                if !self.is_position_set {
                    out.push(self.print("position not set"));
                    proof {
                        assert(events(out@) =~= seq![EventModel::Debug(not_set_text())]);
                    }
                    return Ok(out);
                }
                let mut nodes: Option<Vec<(Move, u64)>> = None;
                let count = perft(&mut self.board, ply, ply, &mut nodes);
                let root_nodes = match nodes {
                    Some(list) => list,
                    None => Vec::new(),
                };
                out.push(EngineEvent::PerftResult { depth: ply, count, root_nodes });
                proof {
                    assert(events(out@) =~= seq![
                        EventModel::PerftResult {
                            depth: ply,
                            count: capped(perft_nodes(old(self).board@, ply as nat)),
                            root_nodes: perft_divide(old(self).board@, ply as nat),
                        },
                    ]);
                }
                Ok(out)
            },
            UciCommand::Position { fen, moves } => {
                let text = match fen {
                    Some(f) => f.inner(),
                    None => "rnbqkbnr/pppppppp/8/8/8/8/PPPPPPPP/RNBQKBNR w KQkq - 0 1".to_owned(),
                };
                let mut board = match Board::load_fen(text) {
                    Ok(b) => b,
                    Err(e) => {
                        return Err(e);
                    },
                };
                let replayed = board.replay(&moves);
                self.board = board;
                self.is_position_set = true;
                match replayed {
                    Ok(_) => {
                        proof {
                            assert(events(out@) =~= Seq::<EventModel>::empty());
                        }
                        Ok(out)
                    },
                    Err(e) => Err(e),
                }
            },
            _ => {
                proof {
                    assert(events(out@) =~= Seq::<EventModel>::empty());
                }
                Ok(out)
            },
        }
    }

    /// Takes one instruction: a command is handled, and an error it ends with is
    /// reported as a line for the reader; the order to terminate sets `stop`; anything
    /// else is passed over.
    pub fn run_thread(&mut self, control: EngineControl) -> (r: Vec<EngineEvent>)
        requires
            old(self).wf(),
        ensures
            final(self).wf(),
            match control {
                EngineControl::Terminate => final(self)@ == (EngineModel {
                    stop: true,
                    ..old(self)@
                }) && r@.len() == 0,
                EngineControl::UciCommand(c) => {
                    &&& final(self)@ == command_outcome(old(self)@, c@).0
                    &&& match command_outcome(old(self)@, c@).1 {
                        Ok(list) => events(r@) == list,
                        Err(e) => events(r@) == seq![EventModel::Debug(e.message_text())],
                    }
                },
                EngineControl::Perft(_) => final(self)@ == old(self)@ && r@.len() == 0,
            },
    {
        match control {
            EngineControl::Terminate => {
                self.stop = true;
                Vec::new()
            },
            EngineControl::UciCommand(c) => match self.handle_command(c) {
                Ok(list) => list,
                Err(e) => {
                    let mut out: Vec<EngineEvent> = Vec::new();
                    out.push(self.print(e.message()));
                    proof {
                        assert(events(out@) =~= seq![EventModel::Debug(e.message_text())]);
                    }
                    out
                },
            },
            _ => Vec::new(),
        }
    }
}

} // verus!
