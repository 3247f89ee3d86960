//! The messages of the protocol, one type per command.

pub mod connect;
pub mod info;
pub mod msg;
pub mod publish;
pub mod sub;
pub mod unsub;

use vstd::prelude::*;
pub use crate::protocol::message::connect::{Auth, AuthView, Connect, ConnectView};
pub use crate::protocol::message::info::{Info, InfoView};
pub use crate::protocol::message::msg::{Msg, MsgView};
pub use crate::protocol::message::publish::{Pub, PubView};
pub use crate::protocol::message::sub::{Sub, SubView};
pub use crate::protocol::message::unsub::{Unsub, UnsubView};

verus! {

/// Every message that can be sent or received.
pub enum Message {
    Info(Info),
    Connect(Connect),
    Pub(Pub),
    Sub(Sub),
    Unsub(Unsub),
    Msg(Msg),
}

/// What a [`Message`] holds.
pub enum MessageView {
    Info(InfoView),
    Connect(ConnectView),
    Pub(PubView),
    Sub(SubView),
    Unsub(UnsubView),
    Msg(MsgView),
}

impl View for Message {
    type V = MessageView;

    open spec fn view(&self) -> MessageView {
        match *self {
            Message::Info(m) => MessageView::Info(m@),
            Message::Connect(m) => MessageView::Connect(m@),
            Message::Pub(m) => MessageView::Pub(m@),
            Message::Sub(m) => MessageView::Sub(m@),
            Message::Unsub(m) => MessageView::Unsub(m@),
            Message::Msg(m) => MessageView::Msg(m@),
        }
    }
}

} // verus!
