//! The decisions of the client's connection to the server: how the session token is sent,
//! and what to do after a connection attempt.
use vstd::prelude::*;

use crate::file_utils::{hex_encode, hex_lower};
use crate::types::SessionToken;

verus! {

/// The value of the `Authorization` header: the session token's lowercase hexadecimal text.
pub fn auth_header_value(token: &SessionToken) -> (r: String)
    ensures
        r@ == hex_lower(token@),
{
    hex_encode(token)
}

/// What to do before connecting, given the stored session token.
#[derive(Clone, Copy, PartialEq, Eq, Structural, Debug)]
pub enum TokenAction {
    /// Send the token in the `Authorization` header.
    SendToken,
    /// Log in first, then try again.
    Login,
}

/// What to do before connecting: send the stored token, or log in when there is none.
pub fn token_action(token: Option<SessionToken>) -> (r: TokenAction)
    ensures
        token is Some <==> r == TokenAction::SendToken,
{
    match token {
        Some(_) => TokenAction::SendToken,
        None => TokenAction::Login,
    }
}

/// How a connection attempt ended.
#[derive(Clone, Copy, PartialEq, Eq, Structural, Debug)]
pub enum ConnectOutcome {
    /// The connection is open.
    Connected,
    /// The server answered with an HTTP status instead of upgrading.
    HttpStatus(u16),
    /// The connection failed otherwise.
    Failed,
}

/// What to do after a connection attempt.
#[derive(Clone, Copy, PartialEq, Eq, Structural, Debug)]
pub enum ConnectAction {
    /// Use the connection.
    Done,
    /// The token was refused: forget it and try again (logging in first).
    ForgetTokenAndRetry,
    /// Wait for the retry interval, then try again.
    WaitAndRetry,
}

/// What to do after a connection attempt: use an open connection, forget a token that the
/// server refused as unauthorized (401), and otherwise wait and retry.
pub fn connect_action(outcome: ConnectOutcome) -> (r: ConnectAction)
    ensures
        outcome == ConnectOutcome::Connected ==> r == ConnectAction::Done,
        outcome == ConnectOutcome::HttpStatus(401) ==> r == ConnectAction::ForgetTokenAndRetry,
        (outcome matches ConnectOutcome::HttpStatus(s) && s != 401) ==> r == ConnectAction::WaitAndRetry,
        outcome == ConnectOutcome::Failed ==> r == ConnectAction::WaitAndRetry,
{
    match outcome {
        ConnectOutcome::Connected => ConnectAction::Done,
        ConnectOutcome::HttpStatus(s) => if s == 401 {
            ConnectAction::ForgetTokenAndRetry
        } else {
            ConnectAction::WaitAndRetry
        },
        ConnectOutcome::Failed => ConnectAction::WaitAndRetry,
    }
}

} // verus!
