//! What the screen asks of the network, and what the network tells the screen.

use vstd::prelude::*;

use crate::addr::SocketAddr;
use crate::path::{FilePath, PathForm};

verus! {

/// A request to the network.
#[derive(Debug)]
pub enum NetCommand {
    /// Connect to a peer.
    ConnectPeer(SocketAddr),
    /// Listen on another address.
    Rebind(SocketAddr),
    /// Stop the transfers that are under way.
    CancelTransfers,
    /// Send files to the connected peer.
    SendFiles(Vec<FilePath>),
    /// End.
    Shutdown,
}

/// News from the network.
#[derive(Debug)]
pub enum NetEvent {
    /// A line for the log.
    Log(String),
    /// The address that is listened on.
    Bound(SocketAddr),
    /// The address that peers see.
    PublicEndpoint(SocketAddr),
    /// A file is sent.
    FileSent { file_id: u64, path: FilePath },
    /// A file is received; from whom, where the transport knows.
    FileReceived { file_id: u64, path: FilePath, from: Option<SocketAddr> },
    /// Where received files go.
    SessionDir(FilePath),
    /// A connection is being made.
    PeerConnecting(SocketAddr),
    /// A connection stands.
    PeerConnected(SocketAddr),
    /// A peer does not answer.
    PeerTimeout(SocketAddr),
    /// A file is on its way.
    SendStarted { file_id: u64, path: FilePath, size: u64 },
    /// How much of a file is sent.
    SendProgress { file_id: u64, bytes_sent: u64, size: u64 },
    /// A file is not sent after all.
    SendCanceled { file_id: u64, path: FilePath },
    /// A file is coming in.
    ReceiveStarted { file_id: u64, path: FilePath, size: u64 },
    /// How much of a file has come in.
    ReceiveProgress { file_id: u64, bytes_received: u64, size: u64 },
    /// A file does not come in after all.
    ReceiveCanceled { file_id: u64, path: FilePath },
    /// A file could not be kept.
    ReceiveFailed { file_id: u64, path: FilePath },
}

/// News as a value of mathematics.
pub enum EventForm {
    Log(Seq<char>),
    Bound(SocketAddr),
    PublicEndpoint(SocketAddr),
    FileSent { file_id: u64, path: PathForm },
    FileReceived { file_id: u64, path: PathForm, from: Option<SocketAddr> },
    SessionDir(PathForm),
    PeerConnecting(SocketAddr),
    PeerConnected(SocketAddr),
    PeerTimeout(SocketAddr),
    SendStarted { file_id: u64, path: PathForm, size: u64 },
    SendProgress { file_id: u64, bytes_sent: u64, size: u64 },
    SendCanceled { file_id: u64, path: PathForm },
    ReceiveStarted { file_id: u64, path: PathForm, size: u64 },
    ReceiveProgress { file_id: u64, bytes_received: u64, size: u64 },
    ReceiveCanceled { file_id: u64, path: PathForm },
    ReceiveFailed { file_id: u64, path: PathForm },
}

impl View for NetEvent {
    type V = EventForm;

    open spec fn view(&self) -> EventForm {
        match *self {
            NetEvent::Log(message) => EventForm::Log(message@),
            NetEvent::Bound(addr) => EventForm::Bound(addr),
            NetEvent::PublicEndpoint(addr) => EventForm::PublicEndpoint(addr),
            NetEvent::FileSent { file_id, path } => EventForm::FileSent { file_id, path: path@ },
            NetEvent::FileReceived { file_id, path, from } => EventForm::FileReceived {
                file_id,
                path: path@,
                from,
            },
            NetEvent::SessionDir(path) => EventForm::SessionDir(path@),
            NetEvent::PeerConnecting(addr) => EventForm::PeerConnecting(addr),
            NetEvent::PeerConnected(addr) => EventForm::PeerConnected(addr),
            NetEvent::PeerTimeout(addr) => EventForm::PeerTimeout(addr),
            NetEvent::SendStarted { file_id, path, size } => EventForm::SendStarted {
                file_id,
                path: path@,
                size,
            },
            NetEvent::SendProgress { file_id, bytes_sent, size } => EventForm::SendProgress {
                file_id,
                bytes_sent,
                size,
            },
            NetEvent::SendCanceled { file_id, path } => EventForm::SendCanceled {
                file_id,
                path: path@,
            },
            NetEvent::ReceiveStarted { file_id, path, size } => EventForm::ReceiveStarted {
                file_id,
                path: path@,
                size,
            },
            NetEvent::ReceiveProgress { file_id, bytes_received, size } => EventForm::ReceiveProgress {
                file_id,
                bytes_received,
                size,
            },
            NetEvent::ReceiveCanceled { file_id, path } => EventForm::ReceiveCanceled {
                file_id,
                path: path@,
            },
            NetEvent::ReceiveFailed { file_id, path } => EventForm::ReceiveFailed {
                file_id,
                path: path@,
            },
        }
    }
}

/// The news of a list.
pub open spec fn event_forms(v: Seq<NetEvent>) -> Seq<EventForm> {
    v.map_values(|e: NetEvent| e@)
}

} // verus!
