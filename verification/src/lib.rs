//! Login conversation engine for a chat bot that binds a user's Luogu
//! account: a per-chat dialogue state machine, the token/captcha scraping
//! rules, the login-response codec, and the per-chat dialogue store.

pub mod codec;
pub mod machine;
pub mod scrape;
pub mod state;
pub mod storage;
pub mod text;
