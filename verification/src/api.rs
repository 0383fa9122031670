//! Plain data carried between the core and its callers: the robot pose,
//! world-change notifications, operation responses, and the error
//! taxonomy of the robot-facing operations.

use vstd::prelude::*;
use crate::direction::JsonTurtleDirection;
use crate::world::TurtleWorldError;

verus! {

/// A robot's pose: durable identity, position and facing.
#[derive(Debug, PartialEq, Eq, Clone, Structural, Copy)]
pub struct JsonTurtle {
    /// The robot's durable identity, as the 128 bits of its UUID.
    pub uuid: u128,
    pub x: i32,
    pub y: i32,
    pub z: i32,
    pub rotation: JsonTurtleDirection,
}

impl JsonTurtle {
    /// The pose a robot starts with when its identity is first seen:
    /// the origin, facing forward.
    pub fn new_for_id(uuid: u128) -> (r: Self)
        ensures
            r == (JsonTurtle {
                uuid,
                x: 0,
                y: 0,
                z: 0,
                rotation: JsonTurtleDirection::Forward,
            }),
    {
        JsonTurtle { uuid, x: 0, y: 0, z: 0, rotation: JsonTurtleDirection::Forward }
    }
}

/// A block observation as the robot reports it.
#[derive(Debug, PartialEq, Eq, Clone)]
pub struct TurtleBlock {
    pub name: String,
}

/// A colored block at a global cell.
#[derive(Debug, PartialEq, Eq, Clone)]
pub struct WorldBlock {
    pub r: u8,
    pub g: u8,
    pub b: u8,
    pub x: i32,
    pub y: i32,
    pub z: i32,
}

/// What happened at one cell during a scan or a dig.
#[derive(Debug, PartialEq, Eq, Clone)]
pub enum WorldChangeAction {
    New(WorldChangeNewBlock),
    Update(WorldChangeUpdateBlock),
    Delete(WorldChangeDeleteBlock),
}

/// A change at a global cell.
#[derive(Debug, PartialEq, Eq, Clone)]
pub struct WorldChange {
    pub x: i32,
    pub y: i32,
    pub z: i32,
    pub action: WorldChangeAction,
}

/// A block appeared; its derived color.
#[derive(Debug, PartialEq, Eq, Clone, Structural, Copy)]
pub struct WorldChangeNewBlock {
    pub r: u8,
    pub g: u8,
    pub b: u8,
}

/// A block changed kind; its derived color, in hex form.
#[derive(Debug, PartialEq, Eq, Clone)]
pub struct WorldChangeUpdateBlock {
    pub color: String,
}

/// A block vanished.
#[derive(Debug, PartialEq, Eq, Clone)]
pub struct WorldChangeDeleteBlock();

/// The pose and scan changes after a move operation.
#[derive(Debug, PartialEq, Eq, Clone)]
pub struct TurtleMoveResponse {
    pub x: i32,
    pub y: i32,
    pub z: i32,
    pub rotation: JsonTurtleDirection,
    pub changes: Vec<WorldChange>,
}

/// One inventory slot.
#[derive(Debug, PartialEq, Eq, Clone)]
pub struct TurtleInventoryItem {
    pub name: String,
    pub count: i64,
    pub selected: bool,
}

/// The change a dig produced, if any.
#[derive(Debug, PartialEq, Eq, Clone)]
pub struct DestroyBlockResponse {
    pub change: Option<WorldChange>,
}

/// Transport-level failures of one request/response exchange. Any of
/// these ends the session.
#[derive(Debug, PartialEq, Eq, Clone)]
pub enum TurtleRequestError {
    /// The robot sent a non-text frame.
    InvalidResponse,
    /// The wire send failed; the transport's message.
    DataSendError(String),
    /// The socket closed or the peer vanished.
    WsClosed,
    /// A deadline expired.
    TimeOut,
    /// The request could not be enqueued.
    RequestSendError,
    /// The reply channel was dropped.
    ResponseRecvError,
}

/// Failures of a move operation.
#[derive(Debug, PartialEq, Eq, Clone)]
pub enum TurtleMoveError {
    RequestError(TurtleRequestError),
    /// The robot refused to move.
    CannotMove,
    /// The robot's reply was neither "true" nor "false".
    InvalidTurtleResponse(String),
    /// The step would take a coordinate outside its range.
    PoseOverflow,
}

/// Failures of a world scan.
#[derive(Debug, PartialEq, Eq, Clone)]
pub enum TurtleWorldScanError {
    RequestError(TurtleRequestError),
    /// An inspection reply was not the expected JSON.
    JsonError,
    /// A stored voxel id has no palette entry.
    CorruptedWorld(String),
    /// A palette index outgrew the 16-bit voxel width.
    IntError,
    /// The scanned cell cannot be addressed.
    WorldError(TurtleWorldError),
}

/// Failures when showing a world.
#[derive(Debug, PartialEq, Eq, Clone, Structural, Copy)]
pub enum TurtleWorldShowError {
    InvalidTurtleError,
}

/// Failures of a dig operation.
#[derive(Debug, PartialEq, Eq, Clone)]
pub enum TurtleDestroyBlockError {
    RequestError(TurtleRequestError),
    /// The robot's reply was neither "true" nor "false".
    UnexpectedResponse(String),
    /// Only the forward side is supported.
    NotImplemented,
    /// The dug cell cannot be addressed.
    WorldError(TurtleWorldError),
}

/// Failures of an inventory query.
#[derive(Debug, PartialEq, Eq, Clone)]
pub enum TurtleGetInventoryError {
    RequestError(TurtleRequestError),
    /// A slot reply was not the expected JSON.
    TurtleResponseNotJson,
    /// An item name holds no ':' to split at.
    InvalidName,
}

} // verus!
