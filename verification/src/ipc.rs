//! Messages the daemon sends to a local client, one JSON object per line on
//! the wire.  The serialization itself happens outside the crate; here the
//! messages are plain values that contracts can speak about.

use vstd::prelude::*;

verus! {

/// One daemon-to-client event.
#[derive(Debug)]
pub enum ServerMsg {
    Status { state: String },
    Partial { text: String },
    Final { text: String },
    Error { message: String },
}

/// Mathematical image of a daemon-to-client event.
pub enum ServerMsgView {
    Status { state: Seq<char> },
    Partial { text: Seq<char> },
    Final { text: Seq<char> },
    Error { message: Seq<char> },
}

impl View for ServerMsg {
    type V = ServerMsgView;

    open spec fn view(&self) -> ServerMsgView {
        match self {
            ServerMsg::Status { state } => ServerMsgView::Status { state: state@ },
            ServerMsg::Partial { text } => ServerMsgView::Partial { text: text@ },
            ServerMsg::Final { text } => ServerMsgView::Final { text: text@ },
            ServerMsg::Error { message } => ServerMsgView::Error { message: message@ },
        }
    }
}

impl DeepView for ServerMsg {
    type V = ServerMsgView;

    open spec fn deep_view(&self) -> ServerMsgView {
        self.view()
    }
}

} // verus!
