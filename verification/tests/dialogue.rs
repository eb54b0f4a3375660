//! End-to-end dialogue scenarios with stubbed bootstrap and login outcomes.

use atri::codec::{ErrResp, LoginResp, OkResp};
use atri::machine::{
    captcha_outcome, commands_handler, parse_command, password_outcome, receive_luogu_2fa,
    receive_luogu_captcha, receive_luogu_password, receive_luogu_username, CaptchaStep, Command,
    PasswordStep,
};
use atri::state::{CaptchaBootstrap, Outgoing, State};
use atri::storage::AtriState;

fn ok_resp(locked: bool) -> LoginResp {
    LoginResp::Success(OkResp {
        username: "alice".to_string(),
        sync_token: "sync".to_string(),
        locked,
        redirect_to: "/".to_string(),
    })
}

fn text_of(out: &Outgoing) -> &str {
    match out {
        Outgoing::Text(t) => t.as_str(),
        Outgoing::Image(_) => panic!("expected a text message"),
    }
}

#[test]
fn happy_path() {
    let mut store = AtriState::new();
    let chat = 7_i64;

    let cmd = parse_command("/login").expect("a command");
    assert!(matches!(cmd, Command::Login));
    let (st, reply) = commands_handler(cmd);
    assert_eq!(reply, "Please tell me your Luogu username.");
    store.put(chat, st);
    assert!(matches!(store.get(chat), State::ReceiveLuoguUsername));

    let (st, reply) = receive_luogu_username(Some("alice"));
    assert_eq!(reply, "Please tell me your Luogu account password.");
    store.put(chat, st);

    let username = match store.get(chat) {
        State::ReceiveLuoguPassword { username } => username,
        _ => panic!("expected the password state"),
    };
    assert_eq!(username, "alice");

    let step = receive_luogu_password(username, Some("pw"));
    let (username, password) = match step {
        PasswordStep::FetchCaptcha { username, password } => (username, password),
        PasswordStep::Stay { .. } => panic!("expected a bootstrap request"),
    };
    let bootstrap = CaptchaBootstrap {
        client_id: "cid1".to_string(),
        csrf_token: "csrf1".to_string(),
        image: vec![1, 2, 3, 4],
    };
    let (st, out) = password_outcome(username, password, Ok(bootstrap));
    assert_eq!(out.len(), 2);
    assert_eq!(text_of(&out[0]), "Please type in the captcha shown below.");
    assert!(matches!(&out[1], Outgoing::Image(b) if b == &vec![1, 2, 3, 4]));
    store.put(chat, st);

    let (username, password, client_id, csrf_token) = match store.get(chat) {
        State::ReceiveLuoguCaptcha { username, password, client_id, csrf_token } => {
            (username, password, client_id, csrf_token)
        }
        _ => panic!("expected the captcha state"),
    };
    assert_eq!(client_id, "cid1");
    assert_eq!(csrf_token, "csrf1");

    let step = receive_luogu_captcha(username, password, client_id, csrf_token, Some("ABCD"));
    match step {
        CaptchaStep::SubmitLogin { username, password, client_id, csrf_token, captcha } => {
            assert_eq!(username, "alice");
            assert_eq!(password, "pw");
            assert_eq!(client_id, "cid1");
            assert_eq!(csrf_token, "csrf1");
            assert_eq!(captcha, "ABCD");
        }
        CaptchaStep::Stay { .. } => panic!("expected a login submission"),
    }

    let (st, out) = captcha_outcome(Ok(ok_resp(false)));
    assert_eq!(out.len(), 1);
    assert_eq!(text_of(&out[0]), "Login succeeded!");
    store.put(chat, st);
    assert!(matches!(store.get(chat), State::Start));
}

#[test]
fn locked_account_asks_for_second_factor() {
    let (st, out) = captcha_outcome(Ok(ok_resp(true)));
    assert!(matches!(st, State::ReceiveLuogu2FA));
    assert_eq!(out.len(), 1);
    assert_eq!(
        text_of(&out[0]),
        "Please tell me your two-factor authentication code."
    );
}

#[test]
fn login_rejection_reports_status_and_message() {
    let resp = LoginResp::Failure(ErrResp {
        status: 401,
        data: String::new(),
        error_message: "bad pwd".to_string(),
        trace: String::new(),
        custom_data: Vec::new(),
    });
    let (st, out) = captcha_outcome(Ok(resp));
    assert!(matches!(st, State::Start));
    assert_eq!(out.len(), 1);
    let msg = text_of(&out[0]);
    assert_eq!(msg, "Login failed...\n401: bad pwd");
    assert!(msg.contains("401"));
    assert!(msg.contains("bad pwd"));
}

#[test]
fn login_transport_failure_resets_with_generic_notice() {
    let (st, out) = captcha_outcome(Err("connection reset".to_string()));
    assert!(matches!(st, State::Start));
    assert_eq!(out.len(), 1);
    assert_eq!(
        text_of(&out[0]),
        "Something went wrong while talking to Luogu. Please try /login again."
    );
}

#[test]
fn bootstrap_failure_reports_the_underlying_message() {
    let (st, out) = password_outcome(
        "alice".to_string(),
        "pw".to_string(),
        Err("Could not fetch the client id!".to_string()),
    );
    assert!(matches!(st, State::Start));
    assert_eq!(out.len(), 1);
    assert_eq!(
        text_of(&out[0]),
        "Something seems to have gone wrong...\nCould not fetch the client id!"
    );
}

#[test]
fn non_text_messages_reprompt_and_then_advance() {
    for _ in 0..3 {
        let step = receive_luogu_password("alice".to_string(), None);
        match step {
            PasswordStep::Stay { state, reply } => {
                assert!(matches!(state, State::ReceiveLuoguPassword { username } if username == "alice"));
                assert_eq!(reply, "Please tell me your Luogu account password.");
            }
            PasswordStep::FetchCaptcha { .. } => panic!("a non-text message must re-prompt"),
        }
    }
    let step = receive_luogu_password("alice".to_string(), Some("pw"));
    assert!(matches!(step, PasswordStep::FetchCaptcha { .. }));
}

#[test]
fn non_text_reprompts_in_username_and_captcha_states() {
    let (st, reply) = receive_luogu_username(None);
    assert!(matches!(st, State::ReceiveLuoguUsername));
    assert_eq!(reply, "Please tell me your Luogu username.");

    let step = receive_luogu_captcha(
        "u".to_string(),
        "p".to_string(),
        "c".to_string(),
        "t".to_string(),
        None,
    );
    match step {
        CaptchaStep::Stay { state, reply } => {
            assert!(matches!(state, State::ReceiveLuoguCaptcha { .. }));
            assert_eq!(reply, "Please type in the captcha shown above.");
        }
        CaptchaStep::SubmitLogin { .. } => panic!("a non-text message must re-prompt"),
    }
}

#[test]
fn commands_reply_with_their_fixed_texts() {
    let (st, greeting) = commands_handler(Command::Start);
    assert!(matches!(st, State::Start));
    assert_eq!(
        greeting,
        "Atri, high performance as ever!\n\nSend /help for the list of commands."
    );
    let (st, help) = commands_handler(Command::Help);
    assert!(matches!(st, State::Start));
    assert!(help.contains("/login"));
    assert!(help.contains("/help"));
    assert!(help.contains("/start"));
}

#[test]
fn command_parsing_follows_the_router_rules() {
    assert!(matches!(parse_command("/start"), Some(Command::Start)));
    assert!(matches!(parse_command("/help"), Some(Command::Help)));
    assert!(matches!(parse_command("/login"), Some(Command::Login)));
    assert!(matches!(parse_command("/login  "), Some(Command::Login)));
    assert!(parse_command("/login now").is_none());
    assert!(parse_command("/unknown").is_none());
    assert!(parse_command("hello").is_none());
    assert!(parse_command("").is_none());
    assert!(parse_command("/LOGIN").is_none());
}

#[test]
fn second_factor_state_stays_put_and_stays_silent() {
    let (st, out) = receive_luogu_2fa(Some("123456"));
    assert!(matches!(st, State::ReceiveLuogu2FA));
    assert!(out.is_empty());
}

#[test]
fn cross_chat_captcha_outcomes_do_not_mix() {
    let mut store = AtriState::new();
    let chat_a = 1_i64;
    let chat_b = 2_i64;
    store.put(
        chat_a,
        State::ReceiveLuoguCaptcha {
            username: "ua".to_string(),
            password: "pa".to_string(),
            client_id: "ca".to_string(),
            csrf_token: "ta".to_string(),
        },
    );
    store.put(
        chat_b,
        State::ReceiveLuoguCaptcha {
            username: "ub".to_string(),
            password: "pb".to_string(),
            client_id: "cb".to_string(),
            csrf_token: "tb".to_string(),
        },
    );
    match store.get(chat_a) {
        State::ReceiveLuoguCaptcha { username, password, client_id, csrf_token } => {
            assert_eq!(username, "ua");
            assert_eq!(password, "pa");
            assert_eq!(client_id, "ca");
            assert_eq!(csrf_token, "ta");
        }
        _ => panic!("chat A lost its state"),
    }
    let (st_a, out_a) = captcha_outcome(Ok(ok_resp(false)));
    store.put(chat_a, st_a);
    assert_eq!(text_of(&out_a[0]), "Login succeeded!");
    let resp_b = LoginResp::Failure(ErrResp {
        status: 403,
        data: String::new(),
        error_message: "wrong captcha".to_string(),
        trace: String::new(),
        custom_data: Vec::new(),
    });
    let (st_b, out_b) = captcha_outcome(Ok(resp_b));
    store.put(chat_b, st_b);
    assert_eq!(text_of(&out_b[0]), "Login failed...\n403: wrong captcha");
    assert!(matches!(store.get(chat_a), State::Start));
    assert!(matches!(store.get(chat_b), State::Start));
}

#[test]
fn store_reads_absent_chats_as_idle_and_overwrites() {
    let mut store = AtriState::new();
    assert!(matches!(store.get(99), State::Start));
    store.put(99, State::ReceiveLuoguUsername);
    assert!(matches!(store.get(99), State::ReceiveLuoguUsername));
    store.put(99, State::Start);
    assert!(matches!(store.get(99), State::Start));
    assert!(matches!(store.get(100), State::Start));
}
