//! Frames of the session protocol and their type byte.
use vstd::prelude::*;

verus! {

/// The type of a frame, carried as one byte.
#[derive(Debug, PartialEq, Eq, Clone, Copy)]
pub enum FrameType {
    Stream,
    Ping,
    Close,
    KeyUpdate,
    WindowUpdate,
}

/// The byte that stands for each frame type.
pub open spec fn type_byte(t: FrameType) -> u8 {
    match t {
        FrameType::Stream => 0,
        FrameType::Ping => 1,
        FrameType::Close => 2,
        FrameType::KeyUpdate => 3,
        FrameType::WindowUpdate => 4,
    }
}

impl FrameType {
    /// The frame type a byte stands for; the byte itself where it stands for
    /// none.
    pub fn try_from_byte(value: u8) -> (r: Result<FrameType, u8>)
        ensures
            match r {
                Ok(t) => type_byte(t) == value,
                Err(b) => b == value && value > 4,
            },
    {
        match value {
            0 => Ok(FrameType::Stream),
            1 => Ok(FrameType::Ping),
            2 => Ok(FrameType::Close),
            3 => Ok(FrameType::KeyUpdate),
            4 => Ok(FrameType::WindowUpdate),
            _ => Err(value),
        }
    }

    /// The byte that stands for the frame type.
    pub fn to_byte(self) -> (r: u8)
        ensures
            r == type_byte(self),
    {
        match self {
            FrameType::Stream => 0,
            FrameType::Ping => 1,
            FrameType::Close => 2,
            FrameType::KeyUpdate => 3,
            FrameType::WindowUpdate => 4,
        }
    }
}

/// A decoded frame.
#[derive(Debug, PartialEq, Eq, Clone)]
pub enum Frame {
    /// Application data of a stream.
    Stream { stream_id: u64, data: Vec<u8> },
    /// Keep-alive with an opaque payload.
    Ping { payload: Vec<u8> },
    /// Ends the connection.
    Close { error_code: u64 },
    /// Announces new session keys.
    KeyUpdate,
    /// Widens the flow-control window of a stream.
    WindowUpdate { stream_id: u64, increment: u64 },
}

impl Frame {
    /// The type of the frame.
    pub fn frame_type(&self) -> (r: FrameType)
        ensures
            r == match self {
                Frame::Stream { .. } => FrameType::Stream,
                Frame::Ping { .. } => FrameType::Ping,
                Frame::Close { .. } => FrameType::Close,
                Frame::KeyUpdate => FrameType::KeyUpdate,
                Frame::WindowUpdate { .. } => FrameType::WindowUpdate,
            },
    {
        match self {
            Frame::Stream { .. } => FrameType::Stream,
            Frame::Ping { .. } => FrameType::Ping,
            Frame::Close { .. } => FrameType::Close,
            Frame::KeyUpdate => FrameType::KeyUpdate,
            Frame::WindowUpdate { .. } => FrameType::WindowUpdate,
        }
    }
}

} // verus!
