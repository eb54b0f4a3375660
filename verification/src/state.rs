//! The per-chat dialogue data model: the dialogue state, the outgoing
//! messages, and the captcha bootstrap record, each with its spec-level view.

use vstd::prelude::*;

verus! {

/// Per-chat dialogue state. `Start` is the idle state in which only
/// commands are understood; every other variant says which piece of the
/// login conversation the next text message supplies, and carries exactly
/// the answers it still needs.
#[derive(Clone, Default)]
pub enum State {
    #[default]
    Start,
    ReceiveLuoguUsername,
    ReceiveLuoguPassword { username: String },
    ReceiveLuoguCaptcha {
        username: String,
        password: String,
        client_id: String,
        csrf_token: String,
    },
    ReceiveLuogu2FA,
}

/// Spec-level view of `State`, with character sequences for the carried text.
pub enum StateView {
    Start,
    ReceiveLuoguUsername,
    ReceiveLuoguPassword { username: Seq<char> },
    ReceiveLuoguCaptcha {
        username: Seq<char>,
        password: Seq<char>,
        client_id: Seq<char>,
        csrf_token: Seq<char>,
    },
    ReceiveLuogu2FA,
}

impl View for State {
    type V = StateView;

    open spec fn view(&self) -> StateView {
        match self {
            State::Start => StateView::Start,
            State::ReceiveLuoguUsername => StateView::ReceiveLuoguUsername,
            State::ReceiveLuoguPassword { username } => StateView::ReceiveLuoguPassword {
                username: username@,
            },
            State::ReceiveLuoguCaptcha { username, password, client_id, csrf_token } => {
                StateView::ReceiveLuoguCaptcha {
                    username: username@,
                    password: password@,
                    client_id: client_id@,
                    csrf_token: csrf_token@,
                }
            },
            State::ReceiveLuogu2FA => StateView::ReceiveLuogu2FA,
        }
    }
}

impl StateView {
    /// True when the state still carries credential material (a username,
    /// a password, or the bootstrap tokens).
    pub open spec fn retains_credentials(self) -> bool {
        match self {
            StateView::ReceiveLuoguPassword { .. } => true,
            StateView::ReceiveLuoguCaptcha { .. } => true,
            _ => false,
        }
    }
}

impl State {
    /// A structurally equal copy of the state.
    pub fn duplicate(&self) -> (r: State)
        ensures
            r == *self,
    {
        match self {
            State::Start => State::Start,
            State::ReceiveLuoguUsername => State::ReceiveLuoguUsername,
            State::ReceiveLuoguPassword { username } => State::ReceiveLuoguPassword {
                username: username.clone(),
            },
            State::ReceiveLuoguCaptcha { username, password, client_id, csrf_token } => {
                State::ReceiveLuoguCaptcha {
                    username: username.clone(),
                    password: password.clone(),
                    client_id: client_id.clone(),
                    csrf_token: csrf_token.clone(),
                }
            },
            State::ReceiveLuogu2FA => State::ReceiveLuogu2FA,
        }
    }
}

/// An outgoing message handed to the messenger: plain text or image bytes.
pub enum Outgoing {
    Text(String),
    Image(Vec<u8>),
}

/// Spec-level view of `Outgoing`.
pub enum OutgoingView {
    Text(Seq<char>),
    Image(Seq<u8>),
}

impl View for Outgoing {
    type V = OutgoingView;

    open spec fn view(&self) -> OutgoingView {
        match self {
            Outgoing::Text(t) => OutgoingView::Text(t@),
            Outgoing::Image(b) => OutgoingView::Image(b@),
        }
    }
}

/// The views of a sequence of outgoing messages.
pub open spec fn outgoing_views(s: Seq<Outgoing>) -> Seq<OutgoingView> {
    s.map_values(|o: Outgoing| o@)
}

/// What one GET of the login landing page plus one captcha download yield:
/// the anonymous client id, the CSRF token from the same response, and the
/// captcha image bytes.
pub struct CaptchaBootstrap {
    pub client_id: String,
    pub csrf_token: String,
    pub image: Vec<u8>,
}

/// Spec-level view of `CaptchaBootstrap`.
pub struct CaptchaBootstrapView {
    pub client_id: Seq<char>,
    pub csrf_token: Seq<char>,
    pub image: Seq<u8>,
}

impl View for CaptchaBootstrap {
    type V = CaptchaBootstrapView;

    open spec fn view(&self) -> CaptchaBootstrapView {
        CaptchaBootstrapView {
            client_id: self.client_id@,
            csrf_token: self.csrf_token@,
            image: self.image@,
        }
    }
}

} // verus!
