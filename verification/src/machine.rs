//! The dialogue state machine and the command router: the transition table
//! over `StateView`, the verified per-state handlers, and the laws that hold
//! of every transition.

use vstd::prelude::*;
use vstd::string::StringExecFns;
use crate::state::{
    State, StateView, Outgoing, OutgoingView, outgoing_views, CaptchaBootstrap,
    CaptchaBootstrapView,
};
use crate::codec::{LoginResp, LoginRespView};
use crate::text::{to_chars, dec_int, i32_to_string};

verus! {

/// A top-level command: recognised only while the dialogue is idle.
#[derive(Clone, Copy, PartialEq, Eq, Structural)]
pub enum Command {
    Start,
    Help,
    Login,
}

// ---------------------------------------------------------------------------
// The user-visible strings. They are a stable part of the interface: the
// handlers below promise them verbatim.
// ---------------------------------------------------------------------------

pub open spec fn greeting_text() -> Seq<char> {
    "Atri, high performance as ever!\n\nSend /help for the list of commands."@
}

pub open spec fn help_text() -> Seq<char> {
    "I understand these commands:\n/start - begin a conversation\n/help - show this help\n/login - link a Luogu account"@
}

pub open spec fn username_prompt() -> Seq<char> {
    "Please tell me your Luogu username."@
}

pub open spec fn password_prompt() -> Seq<char> {
    "Please tell me your Luogu account password."@
}

pub open spec fn captcha_prompt() -> Seq<char> {
    "Please type in the captcha shown below."@
}

pub open spec fn captcha_reprompt() -> Seq<char> {
    "Please type in the captcha shown above."@
}

pub open spec fn twofa_prompt() -> Seq<char> {
    "Please tell me your two-factor authentication code."@
}

pub open spec fn success_text() -> Seq<char> {
    "Login succeeded!"@
}

/// The notice for a bootstrap problem, carrying the underlying message.
pub open spec fn bootstrap_problem_text(err: Seq<char>) -> Seq<char> {
    "Something seems to have gone wrong...\n"@ + err
}

/// The notice for a rejected login, carrying status and error message.
pub open spec fn login_failed_text(status: int, msg: Seq<char>) -> Seq<char> {
    "Login failed...\n"@ + dec_int(status) + ": "@ + msg
}

pub open spec fn login_transport_failure_text() -> Seq<char> {
    "Something went wrong while talking to Luogu. Please try /login again."@
}

// ---------------------------------------------------------------------------
// Command parsing (the router): a message is a command when it is a `/`,
// a recognised lowercase token, and nothing but whitespace after it.
// ---------------------------------------------------------------------------

/// JSON-agnostic notion of whitespace used for command argument splitting.
pub open spec fn is_ws(c: char) -> bool {
    c == ' ' || c == '\t' || c == '\n' || c == '\r'
}

/// The position of the first whitespace character at or after `i`, or the
/// length of `t` when there is none.
pub open spec fn token_end(t: Seq<char>, i: int) -> int
    decreases t.len() - i,
{
    if i < 0 || i >= t.len() {
        t.len() as int
    } else if is_ws(t[i]) {
        i
    } else {
        token_end(t, i + 1)
    }
}

/// Everything from position `i` on is whitespace.
pub open spec fn all_ws_from(t: Seq<char>, i: int) -> bool {
    forall|j: int| i <= j < t.len() ==> is_ws(t[j])
}

/// The command a message text denotes, if any: the token before the first
/// whitespace must be one of the three known commands, and the rest of the
/// text must be whitespace (the known commands take no arguments).
pub open spec fn spec_parse_command(t: Seq<char>) -> Option<Command> {
    let e = token_end(t, 0);
    if !all_ws_from(t, e) {
        None
    } else if t.subrange(0, e) == "/start"@ {
        Some(Command::Start)
    } else if t.subrange(0, e) == "/help"@ {
        Some(Command::Help)
    } else if t.subrange(0, e) == "/login"@ {
        Some(Command::Login)
    } else {
        None
    }
}

fn is_ws_exec(c: char) -> (r: bool)
    ensures
        r == is_ws(c),
{
    c == ' ' || c == '\t' || c == '\n' || c == '\r'
}

/// Whether the token `t[0..e]` is exactly the literal `lit`.
fn token_matches(cs: &Vec<char>, e: usize, lit: &str) -> (r: bool)
    requires
        e <= cs@.len(),
    ensures
        r == (cs@.subrange(0, e as int) == lit@),
{
    let n = vstd::string::StrSliceExecFns::unicode_len(lit);
    if n != e {
        proof {
            assert(cs@.subrange(0, e as int).len() == e);
        }
        return false;
    }
    let mut i: usize = 0;
    while i < e
        invariant
            i <= e,
            e <= cs@.len(),
            e == lit@.len(),
            forall|j: int| 0 <= j < i ==> cs@[j] == lit@[j],
        decreases e - i,
    {
        let c = vstd::string::StrSliceExecFns::get_char(lit, i);
        if cs[i] != c {
            proof {
                assert(cs@.subrange(0, e as int)[i as int] == cs@[i as int]);
            }
            return false;
        }
        i += 1;
    }
    proof {
        assert(cs@.subrange(0, e as int) =~= lit@);
    }
    true
}

/// Parses a message text as a top-level command.
pub fn parse_command(text: &str) -> (r: Option<Command>)
    ensures
        r == spec_parse_command(text@),
{
    let cs = to_chars(text);
    let mut e: usize = 0;
    while e < cs.len() && !is_ws_exec(cs[e])
        invariant
            e <= cs@.len(),
            cs@ == text@,
            token_end(text@, 0) == token_end(text@, e as int),
        decreases cs@.len() - e,
    {
        e += 1;
    }
    proof {
        assert(token_end(text@, 0) == e as int);
    }
    let mut k: usize = e;
    while k < cs.len()
        invariant
            e <= k <= cs@.len(),
            cs@ == text@,
            token_end(text@, 0) == e as int,
            forall|j: int| e <= j < k ==> is_ws(text@[j]),
        decreases cs@.len() - k,
    {
        if !is_ws_exec(cs[k]) {
            proof {
                assert(e <= k && (k as int) < text@.len());
                assert(!is_ws(text@[k as int]));
                assert(!all_ws_from(text@, e as int));
                assert(spec_parse_command(text@) is None);
            }
            return None;
        }
        k += 1;
    }
    proof {
        assert(all_ws_from(text@, e as int));
    }
    if token_matches(&cs, e, "/start") {
        Some(Command::Start)
    } else if token_matches(&cs, e, "/help") {
        Some(Command::Help)
    } else if token_matches(&cs, e, "/login") {
        Some(Command::Login)
    } else {
        None
    }
}

// ---------------------------------------------------------------------------
// The transition table, one spec function per handler, composed into one
// authoritative step function.
// ---------------------------------------------------------------------------

/// What a command does while the dialogue is idle: the reply text and the
/// state the dialogue moves to.
pub open spec fn spec_commands_handler(cmd: Command) -> (StateView, Seq<char>) {
    match cmd {
        Command::Start => (StateView::Start, greeting_text()),
        Command::Help => (StateView::Start, help_text()),
        Command::Login => (StateView::ReceiveLuoguUsername, username_prompt()),
    }
}

/// The idle row of the table: commands are handled, anything else is
/// silently ignored.
pub open spec fn spec_idle_step(text: Option<Seq<char>>) -> (StateView, Seq<OutgoingView>) {
    match text {
        Some(t) => match spec_parse_command(t) {
            Some(cmd) => {
                let r = spec_commands_handler(cmd);
                (r.0, seq![OutgoingView::Text(r.1)])
            },
            None => (StateView::Start, Seq::<OutgoingView>::empty()),
        },
        None => (StateView::Start, Seq::<OutgoingView>::empty()),
    }
}

/// The username row: text advances to the password question, anything else
/// repeats the username question.
pub open spec fn spec_receive_username(text: Option<Seq<char>>) -> (StateView, Seq<char>) {
    match text {
        Some(u) => (StateView::ReceiveLuoguPassword { username: u }, password_prompt()),
        None => (StateView::ReceiveLuoguUsername, username_prompt()),
    }
}

/// The outcome of the captcha bootstrap once a password has been received:
/// on success the dialogue holds the full captcha context and the user sees
/// the captcha; on failure the dialogue resets with the problem notice.
pub open spec fn spec_password_outcome(
    username: Seq<char>,
    password: Seq<char>,
    fetched: Result<CaptchaBootstrapView, Seq<char>>,
) -> (StateView, Seq<OutgoingView>) {
    match fetched {
        Ok(b) => (
            StateView::ReceiveLuoguCaptcha {
                username: username,
                password: password,
                client_id: b.client_id,
                csrf_token: b.csrf_token,
            },
            seq![OutgoingView::Text(captcha_prompt()), OutgoingView::Image(b.image)],
        ),
        Err(e) => (StateView::Start, seq![OutgoingView::Text(bootstrap_problem_text(e))]),
    }
}

/// The outcome of the login submission: success ends the dialogue, a locked
/// account asks for the second factor, a rejection or a transport failure
/// resets the dialogue with the corresponding notice.
pub open spec fn spec_captcha_outcome(
    login: Result<LoginRespView, Seq<char>>,
) -> (StateView, Seq<OutgoingView>) {
    match login {
        Ok(LoginRespView::Success(o)) => {
            if o.locked {
                (StateView::ReceiveLuogu2FA, seq![OutgoingView::Text(twofa_prompt())])
            } else {
                (StateView::Start, seq![OutgoingView::Text(success_text())])
            }
        },
        Ok(LoginRespView::Failure(e)) => (
            StateView::Start,
            seq![OutgoingView::Text(login_failed_text(e.status, e.error_message))],
        ),
        Err(_) => (StateView::Start, seq![OutgoingView::Text(login_transport_failure_text())]),
    }
}

/// The authoritative transition table: from a state, an incoming message
/// (`None` is a non-text message), and the stubbed outcomes of the captcha
/// bootstrap and the login submission, to the next state and the outgoing
/// messages. The two outcome arguments are consulted only on the rows whose
/// guard reaches the corresponding outside call.
pub open spec fn spec_step(
    s: StateView,
    text: Option<Seq<char>>,
    bootstrap: Result<CaptchaBootstrapView, Seq<char>>,
    login: Result<LoginRespView, Seq<char>>,
) -> (StateView, Seq<OutgoingView>) {
    match s {
        StateView::Start => spec_idle_step(text),
        StateView::ReceiveLuoguUsername => {
            let r = spec_receive_username(text);
            (r.0, seq![OutgoingView::Text(r.1)])
        },
        StateView::ReceiveLuoguPassword { username } => match text {
            Some(pw) => spec_password_outcome(username, pw, bootstrap),
            None => (s, seq![OutgoingView::Text(password_prompt())]),
        },
        StateView::ReceiveLuoguCaptcha { .. } => match text {
            Some(_) => spec_captcha_outcome(login),
            None => (s, seq![OutgoingView::Text(captcha_reprompt())]),
        },
        StateView::ReceiveLuogu2FA => (s, Seq::<OutgoingView>::empty()),
    }
}

// ---------------------------------------------------------------------------
// The verified handlers.
// ---------------------------------------------------------------------------

/// The view of an optional message text.
pub open spec fn opt_text_view(text: Option<&str>) -> Option<Seq<char>> {
    match text {
        Some(t) => Some(t@),
        None => None,
    }
}

/// The view of a captcha bootstrap result.
pub open spec fn bootstrap_result_view(
    r: Result<CaptchaBootstrap, String>,
) -> Result<CaptchaBootstrapView, Seq<char>> {
    match r {
        Ok(b) => Ok(b@),
        Err(e) => Err(e@),
    }
}

/// The view of a login submission result.
pub open spec fn login_result_view(
    r: Result<LoginResp, String>,
) -> Result<LoginRespView, Seq<char>> {
    match r {
        Ok(l) => Ok(l@),
        Err(e) => Err(e@),
    }
}

/// Handles a command received while the dialogue is idle.
pub fn commands_handler(cmd: Command) -> (r: (State, String))
    ensures
        r.0@ == spec_commands_handler(cmd).0,
        r.1@ == spec_commands_handler(cmd).1,
{
    match cmd {
        Command::Start => (
            State::Start,
            "Atri, high performance as ever!\n\nSend /help for the list of commands.".to_owned(),
        ),
        Command::Help => (
            State::Start,
            "I understand these commands:\n/start - begin a conversation\n/help - show this help\n/login - link a Luogu account".to_owned(),
        ),
        Command::Login => (
            State::ReceiveLuoguUsername,
            "Please tell me your Luogu username.".to_owned(),
        ),
    }
}

/// Handles the message that should carry the username.
pub fn receive_luogu_username(text: Option<&str>) -> (r: (State, String))
    ensures
        r.0@ == spec_receive_username(opt_text_view(text)).0,
        r.1@ == spec_receive_username(opt_text_view(text)).1,
{
    match text {
        Some(u) => (
            State::ReceiveLuoguPassword { username: u.to_owned() },
            "Please tell me your Luogu account password.".to_owned(),
        ),
        None => (
            State::ReceiveLuoguUsername,
            "Please tell me your Luogu username.".to_owned(),
        ),
    }
}

/// What the password handler decides before any outside work: either stay
/// put with a reply, or run the captcha bootstrap with these credentials.
pub enum PasswordStep {
    Stay { state: State, reply: String },
    FetchCaptcha { username: String, password: String },
}

/// Handles the message that should carry the password. A text message asks
/// the caller to run the captcha bootstrap; anything else re-prompts.
pub fn receive_luogu_password(username: String, text: Option<&str>) -> (r: PasswordStep)
    ensures
        match text {
            Some(pw) => (r matches PasswordStep::FetchCaptcha { username: u, password: p }
                && u@ == username@
                && p@ == pw@),
            None => (r matches PasswordStep::Stay { state, reply }
                && state@ == (StateView::ReceiveLuoguPassword { username: username@ })
                && reply@ == password_prompt()),
        },
{
    match text {
        Some(pw) => PasswordStep::FetchCaptcha { username, password: pw.to_owned() },
        None => PasswordStep::Stay {
            state: State::ReceiveLuoguPassword { username },
            reply: "Please tell me your Luogu account password.".to_owned(),
        },
    }
}

/// Applies the outcome of the captcha bootstrap to the dialogue.
pub fn password_outcome(
    username: String,
    password: String,
    fetched: Result<CaptchaBootstrap, String>,
) -> (r: (State, Vec<Outgoing>))
    ensures
        r.0@ == spec_password_outcome(username@, password@, bootstrap_result_view(fetched)).0,
        outgoing_views(r.1@) == spec_password_outcome(
            username@,
            password@,
            bootstrap_result_view(fetched),
        ).1,
{
    match fetched {
        Ok(b) => {
            let ghost bv = b@;
            let CaptchaBootstrap { client_id, csrf_token, image } = b;
            let st = State::ReceiveLuoguCaptcha { username, password, client_id, csrf_token };
            let mut out: Vec<Outgoing> = Vec::new();
            out.push(Outgoing::Text("Please type in the captcha shown below.".to_owned()));
            out.push(Outgoing::Image(image));
            proof {
                assert(outgoing_views(out@) =~= seq![
                    OutgoingView::Text(captcha_prompt()),
                    OutgoingView::Image(bv.image),
                ]);
            }
            (st, out)
        },
        Err(e) => {
            let mut msg = "Something seems to have gone wrong...\n".to_owned();
            msg.append(e.as_str());
            let mut out: Vec<Outgoing> = Vec::new();
            out.push(Outgoing::Text(msg));
            proof {
                assert(outgoing_views(out@) =~= seq![
                    OutgoingView::Text(bootstrap_problem_text(e@)),
                ]);
            }
            (State::Start, out)
        },
    }
}

/// What the captcha handler decides before any outside work: either stay
/// put with a reply, or submit the full credential tuple.
pub enum CaptchaStep {
    Stay { state: State, reply: String },
    SubmitLogin {
        username: String,
        password: String,
        client_id: String,
        csrf_token: String,
        captcha: String,
    },
}

/// Handles the message that should carry the captcha solution. A text
/// message asks the caller to submit the login; anything else re-prompts.
pub fn receive_luogu_captcha(
    username: String,
    password: String,
    client_id: String,
    csrf_token: String,
    text: Option<&str>,
) -> (r: CaptchaStep)
    ensures
        match text {
            Some(c) => (r matches CaptchaStep::SubmitLogin {
                username: u,
                password: p,
                client_id: ci,
                csrf_token: ct,
                captcha: ca,
            }
                && u@ == username@
                && p@ == password@
                && ci@ == client_id@
                && ct@ == csrf_token@
                && ca@ == c@),
            None => (r matches CaptchaStep::Stay { state, reply }
                && state@ == (StateView::ReceiveLuoguCaptcha {
                    username: username@,
                    password: password@,
                    client_id: client_id@,
                    csrf_token: csrf_token@,
                })
                && reply@ == captcha_reprompt()),
        },
{
    match text {
        Some(c) => CaptchaStep::SubmitLogin {
            username,
            password,
            client_id,
            csrf_token,
            captcha: c.to_owned(),
        },
        None => CaptchaStep::Stay {
            state: State::ReceiveLuoguCaptcha { username, password, client_id, csrf_token },
            reply: "Please type in the captcha shown above.".to_owned(),
        },
    }
}

/// Applies the outcome of the login submission to the dialogue.
pub fn captcha_outcome(outcome: Result<LoginResp, String>) -> (r: (State, Vec<Outgoing>))
    ensures
        r.0@ == spec_captcha_outcome(login_result_view(outcome)).0,
        outgoing_views(r.1@) == spec_captcha_outcome(login_result_view(outcome)).1,
{
    match outcome {
        Ok(LoginResp::Success(o)) => {
            if o.locked {
                let mut out: Vec<Outgoing> = Vec::new();
                out.push(Outgoing::Text(
                    "Please tell me your two-factor authentication code.".to_owned(),
                ));
                proof {
                    assert(outgoing_views(out@) =~= seq![OutgoingView::Text(twofa_prompt())]);
                }
                (State::ReceiveLuogu2FA, out)
            } else {
                let mut out: Vec<Outgoing> = Vec::new();
                out.push(Outgoing::Text("Login succeeded!".to_owned()));
                proof {
                    assert(outgoing_views(out@) =~= seq![OutgoingView::Text(success_text())]);
                }
                (State::Start, out)
            }
        },
        Ok(LoginResp::Failure(e)) => {
            let mut msg = "Login failed...\n".to_owned();
            let num = i32_to_string(e.status);
            msg.append(num.as_str());
            msg.append(": ");
            msg.append(e.error_message.as_str());
            proof {
                assert(msg@ =~= login_failed_text(e.status as int, e.error_message@));
            }
            let mut out: Vec<Outgoing> = Vec::new();
            out.push(Outgoing::Text(msg));
            proof {
                assert(outgoing_views(out@) =~= seq![
                    OutgoingView::Text(login_failed_text(e@.status, e@.error_message)),
                ]);
            }
            (State::Start, out)
        },
        Err(_) => {
            let mut out: Vec<Outgoing> = Vec::new();
            out.push(Outgoing::Text(
                "Something went wrong while talking to Luogu. Please try /login again.".to_owned(),
            ));
            proof {
                assert(outgoing_views(out@) =~= seq![
                    OutgoingView::Text(login_transport_failure_text()),
                ]);
            }
            (State::Start, out)
        },
    }
}

/// Handles a message while the second factor is awaited. The submit
/// protocol for the second factor is not settled yet, so the dialogue
/// deliberately stays put and sends nothing.
pub fn receive_luogu_2fa(text: Option<&str>) -> (r: (State, Vec<Outgoing>))
    ensures
        r.0@ == StateView::ReceiveLuogu2FA,
        outgoing_views(r.1@) == Seq::<OutgoingView>::empty(),
{
    let out: Vec<Outgoing> = Vec::new();
    proof {
        assert(outgoing_views(out@) =~= Seq::<OutgoingView>::empty());
    }
    (State::ReceiveLuogu2FA, out)
}

// ---------------------------------------------------------------------------
// Laws of the transition table.
// ---------------------------------------------------------------------------

/// Law: the transition table is deterministic. Equal states, equal inputs
/// and equal stubbed outcomes give equal next states and equal outgoing
/// messages.
pub proof fn lemma_step_deterministic(
    s1: StateView,
    s2: StateView,
    t1: Option<Seq<char>>,
    t2: Option<Seq<char>>,
    b1: Result<CaptchaBootstrapView, Seq<char>>,
    b2: Result<CaptchaBootstrapView, Seq<char>>,
    l1: Result<LoginRespView, Seq<char>>,
    l2: Result<LoginRespView, Seq<char>>,
)
    requires
        s1 == s2,
        t1 == t2,
        b1 == b2,
        l1 == l2,
    ensures
        spec_step(s1, t1, b1, l1) == spec_step(s2, t2, b2, l2),
{
}

/// Law: a transition that ends in the idle state leaves no credential data
/// behind in the resulting state.
pub proof fn lemma_no_orphan_data(
    s: StateView,
    text: Option<Seq<char>>,
    bootstrap: Result<CaptchaBootstrapView, Seq<char>>,
    login: Result<LoginRespView, Seq<char>>,
)
    ensures
        spec_step(s, text, bootstrap, login).0 matches StateView::Start ==> !spec_step(
            s,
            text,
            bootstrap,
            login,
        ).0.retains_credentials(),
{
}

/// The re-prompt a state answers a non-text message with.
pub open spec fn reprompt_of(s: StateView) -> Seq<char> {
    match s {
        StateView::ReceiveLuoguUsername => username_prompt(),
        StateView::ReceiveLuoguPassword { .. } => password_prompt(),
        StateView::ReceiveLuoguCaptcha { .. } => captcha_reprompt(),
        _ => Seq::empty(),
    }
}

/// A state in which a non-text message is answered with a re-prompt.
pub open spec fn awaits_text(s: StateView) -> bool {
    match s {
        StateView::ReceiveLuoguUsername => true,
        StateView::ReceiveLuoguPassword { .. } => true,
        StateView::ReceiveLuoguCaptcha { .. } => true,
        _ => false,
    }
}

/// Running `n` non-text messages through the table from `s`: the final
/// state and the concatenation of all outgoing messages.
pub open spec fn run_nontext(
    s: StateView,
    n: nat,
    bootstrap: Result<CaptchaBootstrapView, Seq<char>>,
    login: Result<LoginRespView, Seq<char>>,
) -> (StateView, Seq<OutgoingView>)
    decreases n,
{
    if n == 0 {
        (s, Seq::<OutgoingView>::empty())
    } else {
        let first = spec_step(s, None, bootstrap, login);
        let rest = run_nontext(first.0, (n - 1) as nat, bootstrap, login);
        (rest.0, first.1 + rest.1)
    }
}

/// Law: re-prompting is idempotent. In any state that awaits text, a run of
/// `n` non-text messages leaves the state unchanged and produces exactly
/// `n` copies of that state's re-prompt, whatever the stubbed outcomes.
pub proof fn lemma_reprompt_idempotent(
    s: StateView,
    n: nat,
    bootstrap: Result<CaptchaBootstrapView, Seq<char>>,
    login: Result<LoginRespView, Seq<char>>,
)
    requires
        awaits_text(s),
    ensures
        run_nontext(s, n, bootstrap, login).0 == s,
        run_nontext(s, n, bootstrap, login).1 == Seq::new(
            n,
            |i: int| OutgoingView::Text(reprompt_of(s)),
        ),
    decreases n,
{
    if n == 0 {
        assert(run_nontext(s, n, bootstrap, login).1 =~= Seq::new(
            n,
            |i: int| OutgoingView::Text(reprompt_of(s)),
        ));
    } else {
        assert(spec_step(s, None, bootstrap, login).0 == s);
        assert(spec_step(s, None, bootstrap, login).1 =~= seq![
            OutgoingView::Text(reprompt_of(s)),
        ]);
        lemma_reprompt_idempotent(s, (n - 1) as nat, bootstrap, login);
        assert(run_nontext(s, n, bootstrap, login).1 =~= Seq::new(
            n,
            |i: int| OutgoingView::Text(reprompt_of(s)),
        ));
    }
}

} // verus!
