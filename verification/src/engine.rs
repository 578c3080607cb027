//! Data model of the native media engine's side of the world: its error
//! codes, property formats and event kinds, and the decoded event values
//! that the rest of the controller works with.
//!
//! The engine itself is driven over a C interface by unverified glue; that
//! glue hands numeric codes in and takes numeric codes out through the
//! exact mappings below.

use vstd::prelude::*;

verus! {

/// Error conditions the native engine reports, one variant per documented
/// numeric code. `Fatal` stands for a code this controller does not know;
/// the engine's documented codes never map to it.
#[derive(Clone, Copy, PartialEq, Eq, Structural, Debug)]
pub enum MpvError {
    Success,
    EventQueueFull,
    NoMem,
    Uninitialized,
    InvalidParameter,
    OptionNotFound,
    OptionFormat,
    OptionError,
    PropertyNotFound,
    PropertyFormat,
    PropertyUnavailable,
    PropertyError,
    Command,
    LoadingFailed,
    AOInitFailed,
    VOInitFailed,
    NothingToPlay,
    UnknownFormat,
    Unsupported,
    NotImplemented,
    Generic,
    Fatal,
}

impl MpvError {
    /// The engine's numeric error codes: 0 is success, known failures are
    /// -1 through -20, and anything else is out of contract.
    pub open spec fn spec_from_code(code: i32) -> MpvError {
        if code == 0 {
            MpvError::Success
        } else if code == -1 {
            MpvError::EventQueueFull
        } else if code == -2 {
            MpvError::NoMem
        } else if code == -3 {
            MpvError::Uninitialized
        } else if code == -4 {
            MpvError::InvalidParameter
        } else if code == -5 {
            MpvError::OptionNotFound
        } else if code == -6 {
            MpvError::OptionFormat
        } else if code == -7 {
            MpvError::OptionError
        } else if code == -8 {
            MpvError::PropertyNotFound
        } else if code == -9 {
            MpvError::PropertyFormat
        } else if code == -10 {
            MpvError::PropertyUnavailable
        } else if code == -11 {
            MpvError::PropertyError
        } else if code == -12 {
            MpvError::Command
        } else if code == -13 {
            MpvError::LoadingFailed
        } else if code == -14 {
            MpvError::AOInitFailed
        } else if code == -15 {
            MpvError::VOInitFailed
        } else if code == -16 {
            MpvError::NothingToPlay
        } else if code == -17 {
            MpvError::UnknownFormat
        } else if code == -18 {
            MpvError::Unsupported
        } else if code == -19 {
            MpvError::NotImplemented
        } else if code == -20 {
            MpvError::Generic
        } else {
            MpvError::Fatal
        }
    }

    /// Decode a numeric status the engine returned.
    pub fn from_code(code: i32) -> (e: MpvError)
        ensures
            e == MpvError::spec_from_code(code),
    {
        match code {
            0 => MpvError::Success,
            -1 => MpvError::EventQueueFull,
            -2 => MpvError::NoMem,
            -3 => MpvError::Uninitialized,
            -4 => MpvError::InvalidParameter,
            -5 => MpvError::OptionNotFound,
            -6 => MpvError::OptionFormat,
            -7 => MpvError::OptionError,
            -8 => MpvError::PropertyNotFound,
            -9 => MpvError::PropertyFormat,
            -10 => MpvError::PropertyUnavailable,
            -11 => MpvError::PropertyError,
            -12 => MpvError::Command,
            -13 => MpvError::LoadingFailed,
            -14 => MpvError::AOInitFailed,
            -15 => MpvError::VOInitFailed,
            -16 => MpvError::NothingToPlay,
            -17 => MpvError::UnknownFormat,
            -18 => MpvError::Unsupported,
            -19 => MpvError::NotImplemented,
            -20 => MpvError::Generic,
            _ => MpvError::Fatal,
        }
    }

    /// Whether this value reports success rather than a failure.
    pub fn is_success(&self) -> (r: bool)
        ensures
            r <==> *self == MpvError::Success,
    {
        match self {
            MpvError::Success => true,
            _ => false,
        }
    }
}

/// The formats a property value can be requested in; the controller only
/// ever asks for `String`, but the full table is part of the engine's
/// interface.
#[derive(Clone, Copy, PartialEq, Eq, Structural, Debug)]
pub enum MpvFormat {
    NoneFormat,
    String,
    OsdString,
    Flag,
    Int64,
    Double,
    Node,
    NodeArray,
    NodeMap,
    ByteArray,
}

impl MpvFormat {
    /// The engine's numeric code for each format, 0 through 9 in table
    /// order.
    pub open spec fn spec_code(self) -> i32 {
        match self {
            MpvFormat::NoneFormat => 0,
            MpvFormat::String => 1,
            MpvFormat::OsdString => 2,
            MpvFormat::Flag => 3,
            MpvFormat::Int64 => 4,
            MpvFormat::Double => 5,
            MpvFormat::Node => 6,
            MpvFormat::NodeArray => 7,
            MpvFormat::NodeMap => 8,
            MpvFormat::ByteArray => 9,
        }
    }

    /// Encode this format as the numeric code the engine takes.
    pub fn code(self) -> (c: i32)
        ensures
            c == self.spec_code(),
    {
        match self {
            MpvFormat::NoneFormat => 0,
            MpvFormat::String => 1,
            MpvFormat::OsdString => 2,
            MpvFormat::Flag => 3,
            MpvFormat::Int64 => 4,
            MpvFormat::Double => 5,
            MpvFormat::Node => 6,
            MpvFormat::NodeArray => 7,
            MpvFormat::NodeMap => 8,
            MpvFormat::ByteArray => 9,
        }
    }
}

/// The engine's event kinds, one variant per documented numeric id.
#[derive(Clone, Copy, PartialEq, Eq, Structural, Debug)]
pub enum CMpvEventId {
    NoneEvent,
    Shutdown,
    LogMessage,
    GetPropertyReply,
    SetPropertyReply,
    CommandReply,
    StartFile,
    EndFile,
    FileLoaded,
    TracksChanged,
    TrackSwitched,
    Idle,
    Pause,
    Unpause,
    Tick,
    ScriptInputDispatch,
    ClientMessage,
    VideoReconfig,
    AudioReconfig,
    MetadataUpdate,
    Seek,
    PlaybackRestart,
    PropertyChange,
    ChapterChange,
    QueueOverflow,
    Hook,
}

impl CMpvEventId {
    /// The engine numbers its event kinds 0 through 25 in table order; a
    /// number outside that table decodes to `NoneEvent`, the kind the
    /// engine itself uses for "nothing happened".
    pub open spec fn spec_from_code(code: i32) -> CMpvEventId {
        if code == 1 {
            CMpvEventId::Shutdown
        } else if code == 2 {
            CMpvEventId::LogMessage
        } else if code == 3 {
            CMpvEventId::GetPropertyReply
        } else if code == 4 {
            CMpvEventId::SetPropertyReply
        } else if code == 5 {
            CMpvEventId::CommandReply
        } else if code == 6 {
            CMpvEventId::StartFile
        } else if code == 7 {
            CMpvEventId::EndFile
        } else if code == 8 {
            CMpvEventId::FileLoaded
        } else if code == 9 {
            CMpvEventId::TracksChanged
        } else if code == 10 {
            CMpvEventId::TrackSwitched
        } else if code == 11 {
            CMpvEventId::Idle
        } else if code == 12 {
            CMpvEventId::Pause
        } else if code == 13 {
            CMpvEventId::Unpause
        } else if code == 14 {
            CMpvEventId::Tick
        } else if code == 15 {
            CMpvEventId::ScriptInputDispatch
        } else if code == 16 {
            CMpvEventId::ClientMessage
        } else if code == 17 {
            CMpvEventId::VideoReconfig
        } else if code == 18 {
            CMpvEventId::AudioReconfig
        } else if code == 19 {
            CMpvEventId::MetadataUpdate
        } else if code == 20 {
            CMpvEventId::Seek
        } else if code == 21 {
            CMpvEventId::PlaybackRestart
        } else if code == 22 {
            CMpvEventId::PropertyChange
        } else if code == 23 {
            CMpvEventId::ChapterChange
        } else if code == 24 {
            CMpvEventId::QueueOverflow
        } else if code == 25 {
            CMpvEventId::Hook
        } else {
            CMpvEventId::NoneEvent
        }
    }

    /// Decode a numeric event id the engine handed out.
    pub fn from_code(code: i32) -> (id: CMpvEventId)
        ensures
            id == CMpvEventId::spec_from_code(code),
    {
        match code {
            1 => CMpvEventId::Shutdown,
            2 => CMpvEventId::LogMessage,
            3 => CMpvEventId::GetPropertyReply,
            4 => CMpvEventId::SetPropertyReply,
            5 => CMpvEventId::CommandReply,
            6 => CMpvEventId::StartFile,
            7 => CMpvEventId::EndFile,
            8 => CMpvEventId::FileLoaded,
            9 => CMpvEventId::TracksChanged,
            10 => CMpvEventId::TrackSwitched,
            11 => CMpvEventId::Idle,
            12 => CMpvEventId::Pause,
            13 => CMpvEventId::Unpause,
            14 => CMpvEventId::Tick,
            15 => CMpvEventId::ScriptInputDispatch,
            16 => CMpvEventId::ClientMessage,
            17 => CMpvEventId::VideoReconfig,
            18 => CMpvEventId::AudioReconfig,
            19 => CMpvEventId::MetadataUpdate,
            20 => CMpvEventId::Seek,
            21 => CMpvEventId::PlaybackRestart,
            22 => CMpvEventId::PropertyChange,
            23 => CMpvEventId::ChapterChange,
            24 => CMpvEventId::QueueOverflow,
            25 => CMpvEventId::Hook,
            _ => CMpvEventId::NoneEvent,
        }
    }
}

/// A decoded engine event. Every kind but `PropertyChange` is a bare
/// marker; a property change carries the property's name, its new value
/// rendered as text, and the caller-chosen tag it was observed under.
#[derive(PartialEq, Debug)]
pub enum MpvEvent {
    NoneEvent,
    Shutdown,
    LogMessage,
    GetPropertyReply,
    SetPropertyReply,
    CommandReply,
    StartFile,
    EndFile,
    FileLoaded,
    TracksChanged,
    TrackSwitched,
    Idle,
    Pause,
    Unpause,
    Tick,
    ScriptInputDispatch,
    ClientMessage,
    VideoReconfig,
    AudioReconfig,
    MetadataUpdate,
    Seek,
    PlaybackRestart,
    PropertyChange { name: String, change: String, reply_userdata: u64 },
    ChapterChange,
    QueueOverflow,
    Hook,
}

/// The event value a given event kind decodes to, where `name`, `change`
/// and `reply_userdata` are the property payload and are taken up only by
/// `PropertyChange`.
pub open spec fn spec_event_of(
    id: CMpvEventId,
    name: String,
    change: String,
    reply_userdata: u64,
) -> MpvEvent {
    match id {
        CMpvEventId::NoneEvent => MpvEvent::NoneEvent,
        CMpvEventId::Shutdown => MpvEvent::Shutdown,
        CMpvEventId::LogMessage => MpvEvent::LogMessage,
        CMpvEventId::GetPropertyReply => MpvEvent::GetPropertyReply,
        CMpvEventId::SetPropertyReply => MpvEvent::SetPropertyReply,
        CMpvEventId::CommandReply => MpvEvent::CommandReply,
        CMpvEventId::StartFile => MpvEvent::StartFile,
        CMpvEventId::EndFile => MpvEvent::EndFile,
        CMpvEventId::FileLoaded => MpvEvent::FileLoaded,
        CMpvEventId::TracksChanged => MpvEvent::TracksChanged,
        CMpvEventId::TrackSwitched => MpvEvent::TrackSwitched,
        CMpvEventId::Idle => MpvEvent::Idle,
        CMpvEventId::Pause => MpvEvent::Pause,
        CMpvEventId::Unpause => MpvEvent::Unpause,
        CMpvEventId::Tick => MpvEvent::Tick,
        CMpvEventId::ScriptInputDispatch => MpvEvent::ScriptInputDispatch,
        CMpvEventId::ClientMessage => MpvEvent::ClientMessage,
        CMpvEventId::VideoReconfig => MpvEvent::VideoReconfig,
        CMpvEventId::AudioReconfig => MpvEvent::AudioReconfig,
        CMpvEventId::MetadataUpdate => MpvEvent::MetadataUpdate,
        CMpvEventId::Seek => MpvEvent::Seek,
        CMpvEventId::PlaybackRestart => MpvEvent::PlaybackRestart,
        CMpvEventId::PropertyChange => MpvEvent::PropertyChange {
            name,
            change,
            reply_userdata,
        },
        CMpvEventId::ChapterChange => MpvEvent::ChapterChange,
        CMpvEventId::QueueOverflow => MpvEvent::QueueOverflow,
        CMpvEventId::Hook => MpvEvent::Hook,
    }
}

impl CMpvEventId {
    /// Decode the event this kind stands for. The three payload arguments
    /// are what the engine attached to a property-change event; every
    /// other kind ignores them.
    pub fn to_event(self, name: String, change: String, reply_userdata: u64) -> (e: MpvEvent)
        ensures
            e == spec_event_of(self, name, change, reply_userdata),
    {
        match self {
            CMpvEventId::NoneEvent => MpvEvent::NoneEvent,
            CMpvEventId::Shutdown => MpvEvent::Shutdown,
            CMpvEventId::LogMessage => MpvEvent::LogMessage,
            CMpvEventId::GetPropertyReply => MpvEvent::GetPropertyReply,
            CMpvEventId::SetPropertyReply => MpvEvent::SetPropertyReply,
            CMpvEventId::CommandReply => MpvEvent::CommandReply,
            CMpvEventId::StartFile => MpvEvent::StartFile,
            CMpvEventId::EndFile => MpvEvent::EndFile,
            CMpvEventId::FileLoaded => MpvEvent::FileLoaded,
            CMpvEventId::TracksChanged => MpvEvent::TracksChanged,
            CMpvEventId::TrackSwitched => MpvEvent::TrackSwitched,
            CMpvEventId::Idle => MpvEvent::Idle,
            CMpvEventId::Pause => MpvEvent::Pause,
            CMpvEventId::Unpause => MpvEvent::Unpause,
            CMpvEventId::Tick => MpvEvent::Tick,
            CMpvEventId::ScriptInputDispatch => MpvEvent::ScriptInputDispatch,
            CMpvEventId::ClientMessage => MpvEvent::ClientMessage,
            CMpvEventId::VideoReconfig => MpvEvent::VideoReconfig,
            CMpvEventId::AudioReconfig => MpvEvent::AudioReconfig,
            CMpvEventId::MetadataUpdate => MpvEvent::MetadataUpdate,
            CMpvEventId::Seek => MpvEvent::Seek,
            CMpvEventId::PlaybackRestart => MpvEvent::PlaybackRestart,
            CMpvEventId::PropertyChange => MpvEvent::PropertyChange {
                name,
                change,
                reply_userdata,
            },
            CMpvEventId::ChapterChange => MpvEvent::ChapterChange,
            CMpvEventId::QueueOverflow => MpvEvent::QueueOverflow,
            CMpvEventId::Hook => MpvEvent::Hook,
        }
    }
}

} // verus!
