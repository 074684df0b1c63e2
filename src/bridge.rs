//! Routing of frames between a browser socket and an attached shell,
//! either an exec session in a container or a local pseudo-terminal.
use vstd::prelude::*;

verus! {

/// Rows of a new pseudo-terminal.
pub const PTY_ROWS: u16 = 24;
/// Columns of a new pseudo-terminal.
pub const PTY_COLS: u16 = 80;
/// Most bytes read from a pseudo-terminal at once.
pub const PTY_READ_CHUNK: usize = 1024;
/// Reads that may wait between a pseudo-terminal and the socket.
pub const PTY_QUEUE_CAPACITY: usize = 100;

/// Output of an exec session.
pub enum RuntimeFrame {
    StdOut(Vec<u8>),
    StdErr(Vec<u8>),
    Console(Vec<u8>),
    StdIn(Vec<u8>),
}

/// A frame from the browser socket.
pub enum SocketFrame {
    Text(String),
    Binary(Vec<u8>),
    Close,
    Ping,
    Pong,
}

/// What the bridge does with one frame.
pub enum BridgeStep {
    /// Send the bytes to the socket as a binary frame.
    ToSocket(Vec<u8>),
    /// Write the bytes to the shell.
    ToShell(Vec<u8>),
    /// Nothing; go on.
    Skip,
    /// End the session.
    End,
}

/// Output of the shell goes to the socket as binary; echoed input is dropped.
pub fn route_runtime_frame(f: RuntimeFrame) -> (r: BridgeStep)
    ensures
        match f {
            RuntimeFrame::StdOut(b) => r matches BridgeStep::ToSocket(x) && x@ == b@,
            RuntimeFrame::StdErr(b) => r matches BridgeStep::ToSocket(x) && x@ == b@,
            RuntimeFrame::Console(b) => r matches BridgeStep::ToSocket(x) && x@ == b@,
            RuntimeFrame::StdIn(_) => r is Skip,
        },
{
    match f {
        RuntimeFrame::StdOut(b) => BridgeStep::ToSocket(b),
        RuntimeFrame::StdErr(b) => BridgeStep::ToSocket(b),
        RuntimeFrame::Console(b) => BridgeStep::ToSocket(b),
        RuntimeFrame::StdIn(_) => BridgeStep::Skip,
    }
}

/// Binary frames go to the shell as they are, text frames as their UTF-8
/// bytes; a close frame ends the session; pings and pongs are skipped.
pub fn route_socket_frame(f: SocketFrame) -> (r: BridgeStep)
    ensures
        match f {
            SocketFrame::Binary(b) => r matches BridgeStep::ToShell(x) && x@ == b@,
            SocketFrame::Text(t) => r matches BridgeStep::ToShell(x) && x@ == vstd::utf8::encode_utf8(t@),
            SocketFrame::Close => r is End,
            SocketFrame::Ping => r is Skip,
            SocketFrame::Pong => r is Skip,
        },
{
    match f {
        SocketFrame::Binary(b) => BridgeStep::ToShell(b),
        SocketFrame::Text(t) => BridgeStep::ToShell(t.as_str().as_bytes_vec()),
        SocketFrame::Close => BridgeStep::End,
        SocketFrame::Ping => BridgeStep::Skip,
        SocketFrame::Pong => BridgeStep::Skip,
    }
}

/// The shell to spawn in a pseudo-terminal: bash where it is available, sh otherwise.
pub fn pty_shell(bash_available: bool) -> (r: &'static str)
    ensures
        r@ == if bash_available { "/bin/bash"@ } else { "/bin/sh"@ },
{
    if bash_available {
        "/bin/bash"
    } else {
        "/bin/sh"
    }
}

} // verus!
