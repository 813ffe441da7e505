use vstd::prelude::*;

verus! {

/// The last known state of one connected player.
#[derive(Clone, Debug, PartialEq, Eq)]
pub struct PlayerState {
    pub player_id: String,
    pub score: i32,
    pub name: Option<String>,
}

/// One event exchanged between the hub and its clients. Every variant carries
/// the id of the player it is about.
#[derive(Clone, Debug, PartialEq, Eq)]
pub enum GameMessage {
    Join { player_id: String },
    GameState { player_id: String, score: i32 },
    LineCleared { player_id: String, count: i32 },
    GameOver { player_id: String },
    PlayerLeft { player_id: String },
}

/// The mathematical value of a `GameMessage`: ids as character sequences.
pub enum MessageView {
    Join { player_id: Seq<char> },
    GameState { player_id: Seq<char>, score: i32 },
    LineCleared { player_id: Seq<char>, count: i32 },
    GameOver { player_id: Seq<char> },
    PlayerLeft { player_id: Seq<char> },
}

impl View for GameMessage {
    type V = MessageView;

    open spec fn view(&self) -> MessageView {
        match self {
            GameMessage::Join { player_id } => MessageView::Join { player_id: player_id@ },
            GameMessage::GameState { player_id, score } => MessageView::GameState {
                player_id: player_id@,
                score: *score,
            },
            GameMessage::LineCleared { player_id, count } => MessageView::LineCleared {
                player_id: player_id@,
                count: *count,
            },
            GameMessage::GameOver { player_id } => MessageView::GameOver { player_id: player_id@ },
            GameMessage::PlayerLeft { player_id } => MessageView::PlayerLeft {
                player_id: player_id@,
            },
        }
    }
}

/// The views of a sequence of messages.
pub open spec fn views_of(msgs: Seq<GameMessage>) -> Seq<MessageView> {
    msgs.map_values(|m: GameMessage| m@)
}

impl MessageView {
    /// The id of the player the message is about.
    pub open spec fn sender(self) -> Seq<char> {
        match self {
            MessageView::Join { player_id } => player_id,
            MessageView::GameState { player_id, .. } => player_id,
            MessageView::LineCleared { player_id, .. } => player_id,
            MessageView::GameOver { player_id } => player_id,
            MessageView::PlayerLeft { player_id } => player_id,
        }
    }
}

impl GameMessage {
    /// A copy of the message with the same variant and fields.
    pub fn duplicate(&self) -> (r: GameMessage)
        ensures
            r@ == self@,
    {
        match self {
            GameMessage::Join { player_id } => GameMessage::Join { player_id: player_id.clone() },
            GameMessage::GameState { player_id, score } => GameMessage::GameState {
                player_id: player_id.clone(),
                score: *score,
            },
            GameMessage::LineCleared { player_id, count } => GameMessage::LineCleared {
                player_id: player_id.clone(),
                count: *count,
            },
            GameMessage::GameOver { player_id } => GameMessage::GameOver {
                player_id: player_id.clone(),
            },
            GameMessage::PlayerLeft { player_id } => GameMessage::PlayerLeft {
                player_id: player_id.clone(),
            },
        }
    }

    /// The id of the player the message is about.
    pub fn player_id(&self) -> (r: &String)
        ensures
            r@ == self@.sender(),
    {
        match self {
            GameMessage::Join { player_id } => player_id,
            GameMessage::GameState { player_id, .. } => player_id,
            GameMessage::LineCleared { player_id, .. } => player_id,
            GameMessage::GameOver { player_id } => player_id,
            GameMessage::PlayerLeft { player_id } => player_id,
        }
    }
}

} // verus!
