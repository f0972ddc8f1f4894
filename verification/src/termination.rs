//! How the program ends when it can no longer print.

use crate::text::{contains_text, law_parts_occur, occurs_in};
use vstd::prelude::*;

verus! {

/// What a panic carries.
pub enum PanicPayload<'a> {
    /// A string literal.
    Literal(&'a str),
    /// A formatted message.
    Formatted(&'a String),
    /// Anything else.
    Other,
}

/// The message of a panic, where it has one.
pub open spec fn message_of(payload: PanicPayload) -> Option<Seq<char>> {
    match payload {
        PanicPayload::Literal(text) => Some(text@),
        PanicPayload::Formatted(text) => Some(text@),
        PanicPayload::Other => None,
    }
}

/// `message` says that printing failed.
pub open spec fn is_print_failure(message: Seq<char>) -> bool {
    ||| occurs_in("failed printing to stdout"@, message)
    ||| occurs_in("failed printing to stderr"@, message)
}

/// `message` says that the other end of a pipe was closed, in the words of some system.
pub open spec fn is_closed_pipe(message: Seq<char>) -> bool {
    ||| occurs_in("Broken pipe"@, message)
    ||| occurs_in("os error 109"@, message)
    ||| occurs_in("os error 232"@, message)
}

/// Whether a failure to print is due to a closed pipe; nothing, where the message reports no such
/// failure.
pub open spec fn print_failure(message: Option<Seq<char>>) -> Option<bool> {
    match message {
        Some(text) => if is_print_failure(text) {
            Some(is_closed_pipe(text))
        } else {
            None
        },
        None => None,
    }
}

/// The message of a panic.
pub fn panic_message<'a>(payload: &PanicPayload<'a>) -> (message: Option<&'a str>)
    ensures
        match message {
            Some(text) => message_of(*payload) == Some(text@),
            None => message_of(*payload) is None,
        },
{
    match *payload {
        PanicPayload::Literal(text) => Some(text),
        PanicPayload::Formatted(text) => Some(text.as_str()),
        PanicPayload::Other => None,
    }
}

/// Whether a panic is a failure to print, and if so, whether a closed pipe is the reason.
pub fn stream_error(payload: &PanicPayload) -> (closed: Option<bool>)
    ensures
        closed == print_failure(message_of(*payload)),
{
    let message = match panic_message(payload) {
        Some(message) => message,
        None => {
            return None;
        },
    };
    if contains_text(message, "failed printing to stdout") || contains_text(
        message,
        "failed printing to stderr",
    ) {
        Some(
            contains_text(message, "Broken pipe") || contains_text(message, "os error 109")
                || contains_text(message, "os error 232"),
        )
    } else {
        None
    }
}

/// The status with which the program ends after a panic: success where a pipe was closed, and two
/// where printing failed otherwise. Any other panic goes on, and has no status.
pub fn exit_status(payload: &PanicPayload) -> (status: Option<u8>)
    ensures
        status == match print_failure(message_of(*payload)) {
            Some(true) => Some(0u8),
            Some(false) => Some(2u8),
            None => None,
        },
{
    match stream_error(payload) {
        Some(true) => Some(0),
        Some(false) => Some(2),
        None => None,
    }
}

/// A panic is a failure to print if and only if the words for one of the two streams stand in its
/// message, wherever, and a closed pipe is the reason if and only if the words for that, of one
/// system or another, stand there too. A panic without a message is no failure to print.
pub proof fn law_failures_to_print_are_told_by_their_words(text: Seq<char>)
    ensures
        print_failure(Some(text)) is Some <==> {
            ||| exists|a: Seq<char>, b: Seq<char>|
                text == #[trigger] (a + "failed printing to stdout"@ + b)
            ||| exists|a: Seq<char>, b: Seq<char>|
                text == #[trigger] (a + "failed printing to stderr"@ + b)
        },
        print_failure(Some(text)) matches Some(closed) ==> (closed <==> {
            ||| exists|a: Seq<char>, b: Seq<char>| text == #[trigger] (a + "Broken pipe"@ + b)
            ||| exists|a: Seq<char>, b: Seq<char>| text == #[trigger] (a + "os error 109"@ + b)
            ||| exists|a: Seq<char>, b: Seq<char>| text == #[trigger] (a + "os error 232"@ + b)
        }),
        print_failure(None) is None,
{
    law_parts_occur("failed printing to stdout"@, text);
    law_parts_occur("failed printing to stderr"@, text);
    law_parts_occur("Broken pipe"@, text);
    law_parts_occur("os error 109"@, text);
    law_parts_occur("os error 232"@, text);
}

/// The message of a panic is the text that it carries, literal or formatted, as it is.
pub proof fn law_messages_are_what_panics_carry(literal: &str, formatted: &String)
    ensures
        message_of(PanicPayload::Literal(literal)) == Some(literal@),
        message_of(PanicPayload::Formatted(formatted)) == Some(formatted@),
        message_of(PanicPayload::Other) is None,
{
}

}
